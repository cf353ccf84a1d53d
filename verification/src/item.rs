//! The launchable item and its mathematical model.

use vstd::prelude::*;

verus! {

/// One selectable entry of the launcher: immutable metadata supplied by the
/// inventory layer, plus a mutable match score that is meaningful only while
/// the item is shown (it is held at zero while the item is hidden).
pub struct App {
    pub name: String,
    pub description: String,
    pub command: String,
    pub is_terminal: bool,
    pub history: u64,
    pub score: i64,
}

/// The model of an [`App`]: the same record over sequences of characters.
pub ghost struct AppModel {
    pub name: Seq<char>,
    pub description: Seq<char>,
    pub command: Seq<char>,
    pub is_terminal: bool,
    pub history: u64,
    pub score: i64,
}

impl View for App {
    type V = AppModel;

    open spec fn view(&self) -> AppModel {
        AppModel {
            name: self.name@,
            description: self.description@,
            command: self.command@,
            is_terminal: self.is_terminal,
            history: self.history,
            score: self.score,
        }
    }
}

impl AppModel {
    /// The same item carrying the given match score.
    pub open spec fn with_score(self, score: i64) -> AppModel {
        AppModel { score: score, ..self }
    }

    /// The identity of an item: everything the inventory layer supplied, with
    /// the scratch score field ignored. Two items are the same entry exactly
    /// when their identities are equal.
    pub open spec fn identity(self) -> AppModel {
        self.with_score(0)
    }
}

/// The models of a sequence of items.
pub open spec fn models(s: Seq<App>) -> Seq<AppModel> {
    s.map_values(|a: App| a@)
}

/// The identities of a sequence of item models.
pub open spec fn identities(s: Seq<AppModel>) -> Seq<AppModel> {
    s.map_values(|m: AppModel| m.identity())
}

} // verus!
