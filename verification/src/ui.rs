//! The filter state of the launcher and its two operations: the query-driven
//! re-filter and the verbosity-driven detail projection.

use vstd::prelude::*;
use vstd::string::StringExecFns;

use crate::item::{models, App, AppModel};
use crate::matcher::fuzzy_match_score;
use crate::numfmt::{push_i64_digits, push_u64_digits};
use crate::order::{lemma_sort_ranked_ensures, rank_le, sort_by_rank, sort_ranked, sorted_by_rank};
use crate::refilter::{hidden_after, lemma_partition_append, lemma_partition_complete, shown_after};
use crate::segment::{detail_segments, segment_models, Segment, SegmentKind};

verus! {

/// The views of a sequence of log lines.
pub open spec fn log_models(s: Seq<String>) -> Seq<Seq<char>> {
    s.map_values(|x: String| x@)
}

/// The filter state: every item supplied at construction is at any time in
/// exactly one of `shown` and `hidden`; `shown` is kept ranked by match
/// quality; `selected` points into `shown` whenever it is non-empty; `text`
/// holds the detail projection of the selected item; `log` collects
/// diagnostic lines.
pub struct UI {
    pub shown: Vec<App>,
    pub hidden: Vec<App>,
    pub selected: Option<usize>,
    pub text: Vec<Segment>,
    pub query: String,
    pub log: Vec<String>,
    pub verbose: u64,
}

impl UI {
    /// The selection is `None` exactly when nothing is shown, and otherwise a
    /// valid index into the shown list.
    pub open spec fn selection_valid(self) -> bool {
        &&& self.selected is None <==> self.shown@.len() == 0
        &&& (self.selected matches Some(i) ==> i < self.shown@.len())
    }

    /// A fresh session over the full item list: everything shown in the order
    /// supplied, nothing hidden, the top item selected when there is one.
    pub fn new(items: Vec<App>) -> (ui: UI)
        ensures
            ui.shown@ == items@,
            ui.hidden@.len() == 0,
            ui.selected == (if items@.len() == 0 {
                Option::<usize>::None
            } else {
                Option::Some(0usize)
            }),
            ui.text@.len() == 0,
            ui.query@ == Seq::<char>::empty(),
            ui.log@.len() == 0,
            ui.verbose == 0,
            ui.selection_valid(),
    {
        let selected: Option<usize> = if items.len() == 0 {
            None
        } else {
            Some(0)
        };
        UI {
            shown: items,
            hidden: Vec::new(),
            selected,
            text: Vec::new(),
            query: String::new(),
            log: Vec::new(),
            verbose: 0,
        }
    }

    /// Sets the verbosity level read by the next projection.
    pub fn verbosity(&mut self, b: u64)
        ensures
            final(self).verbose == b,
            final(self).shown == old(self).shown,
            final(self).hidden == old(self).hidden,
            final(self).selected == old(self).selected,
            final(self).text == old(self).text,
            final(self).query == old(self).query,
            final(self).log == old(self).log,
    {
        self.verbose = b;
    }

    /// Rebuilds the detail projection of the selected item at the current
    /// verbosity, or clears it when nothing is selected.
    pub fn info(&mut self)
        requires
            old(self).selection_valid(),
        ensures
            final(self).shown == old(self).shown,
            final(self).hidden == old(self).hidden,
            final(self).selected == old(self).selected,
            final(self).query == old(self).query,
            final(self).log == old(self).log,
            final(self).verbose == old(self).verbose,
            old(self).selected is None ==> final(self).text@.len() == 0,
            (old(self).selected matches Some(i) ==> segment_models(final(self).text@)
                == detail_segments(old(self).shown@[i as int]@, old(self).verbose)),
    {
        match self.selected {
            None => {
                self.text = Vec::new();
            },
            Some(sel) => {
                let mut t: Vec<Segment> = Vec::new();
                t.push(
                    Segment { kind: SegmentKind::Title, text: self.shown[sel].name.clone() },
                );
                t.push(
                    Segment {
                        kind: SegmentKind::Plain,
                        text: self.shown[sel].description.clone(),
                    },
                );
                if self.verbose > 0 {
                    let label = if self.shown[sel].is_terminal {
                        "Exec (terminal): "
                    } else {
                        "Exec: "
                    };
                    t.push(Segment { kind: SegmentKind::Plain, text: String::from_str(label) });
                    t.push(
                        Segment {
                            kind: SegmentKind::Command,
                            text: self.shown[sel].command.clone(),
                        },
                    );
                    if self.verbose > 1 {
                        let mut runs = String::from_str("Times run: ");
                        push_u64_digits(&mut runs, self.shown[sel].history);
                        t.push(Segment { kind: SegmentKind::Plain, text: runs });
                        let mut score_line = String::from_str("Matching score: ");
                        push_i64_digits(&mut score_line, self.shown[sel].score);
                        t.push(Segment { kind: SegmentKind::Plain, text: score_line });
                    }
                }
                self.text = t;
                proof {
                    let m = old(self).shown@[sel as int]@;
                    assert(segment_models(self.text@) =~= detail_segments(m, old(self).verbose));
                }
            },
        }
    }

    /// Re-derives the whole partition from the current query: every item, on
    /// whichever side it sat, is matched afresh against the query by name;
    /// the matching ones form the new `shown`, re-scored and re-sorted by
    /// rank; the rest form the new `hidden` with scores held at zero; the
    /// selection resets to the top, or to `None` (logging `"NO ITEMS!"`) when
    /// nothing matches.
    pub fn filter(&mut self)
        ensures
            ({
                let all = models(old(self).shown@) + models(old(self).hidden@);
                let q = old(self).query@;
                &&& models(final(self).shown@) == sort_ranked(shown_after(all, q))
                &&& models(final(self).hidden@) == hidden_after(all, q)
            }),
            sorted_by_rank(models(final(self).shown@)),
            forall|i: int|
                0 <= i < final(self).shown@.len() - 1 ==> (#[trigger] models(
                    final(self).shown@,
                )[i]).score >= models(final(self).shown@)[i + 1].score,
            final(self).shown@.len() + final(self).hidden@.len() == old(self).shown@.len() + old(
                self,
            ).hidden@.len(),
            final(self).selected == (if final(self).shown@.len() == 0 {
                Option::<usize>::None
            } else {
                Option::Some(0usize)
            }),
            final(self).selection_valid(),
            final(self).query == old(self).query,
            final(self).verbose == old(self).verbose,
            final(self).text == old(self).text,
            final(self).shown@.len() == 0 ==> log_models(final(self).log@) == log_models(
                old(self).log@,
            ) + seq!["NO ITEMS!"@, "update_filter\n"@],
            final(self).shown@.len() > 0 ==> log_models(final(self).log@) == log_models(
                old(self).log@,
            ).push("update_filter\n"@),
    {
        let ghost shown0 = models(old(self).shown@);
        let ghost hidden0 = models(old(self).hidden@);
        let ghost q = old(self).query@;
        let mut kept: Vec<App> = Vec::new();
        let mut dropped: Vec<App> = Vec::new();
        proof {
            assert(models(kept@) =~= Seq::<AppModel>::empty());
            assert(models(dropped@) =~= Seq::<AppModel>::empty());
            assert(models(kept@) + shown_after(shown0, q) =~= shown_after(shown0, q));
            assert(models(dropped@) + hidden_after(shown0, q) =~= hidden_after(shown0, q));
        }
        while self.shown.len() > 0
            invariant
                q == self.query@,
                self.hidden == old(self).hidden,
                self.text == old(self).text,
                self.log == old(self).log,
                self.verbose == old(self).verbose,
                self.selected == old(self).selected,
                self.query == old(self).query,
                models(kept@) + shown_after(models(self.shown@), q) == shown_after(shown0, q),
                models(dropped@) + hidden_after(models(self.shown@), q) == hidden_after(
                    shown0,
                    q,
                ),
            decreases self.shown.len(),
        {
            let ghost pre = models(self.shown@);
            let ghost kept0 = models(kept@);
            let ghost dropped0 = models(dropped@);
            let mut a = self.shown.remove(0);
            proof {
                assert(models(self.shown@) =~= pre.drop_first());
                assert(pre[0int] == a@);
            }
            match fuzzy_match_score(a.name.as_str(), self.query.as_str()) {
                Some(sc) => {
                    a.score = sc;
                    proof {
                        assert(a@ == pre[0int].with_score(sc));
                    }
                    kept.push(a);
                    proof {
                        assert(models(kept@) =~= kept0.push(pre[0int].with_score(sc)));
                        assert(shown_after(pre, q) == seq![pre[0int].with_score(sc)]
                            + shown_after(pre.drop_first(), q));
                        assert(kept0.push(pre[0int].with_score(sc)) + shown_after(
                            pre.drop_first(),
                            q,
                        ) =~= kept0 + shown_after(pre, q));
                    }
                },
                None => {
                    a.score = 0;
                    proof {
                        assert(a@ == pre[0int].with_score(0));
                    }
                    dropped.push(a);
                    proof {
                        assert(models(dropped@) =~= dropped0.push(pre[0int].with_score(0)));
                        assert(hidden_after(pre, q) == seq![pre[0int].with_score(0)]
                            + hidden_after(pre.drop_first(), q));
                        assert(dropped0.push(pre[0int].with_score(0)) + hidden_after(
                            pre.drop_first(),
                            q,
                        ) =~= dropped0 + hidden_after(pre, q));
                    }
                },
            }
        }
        proof {
            assert(models(self.shown@) =~= Seq::<AppModel>::empty());
            assert(models(kept@) + shown_after(models(self.shown@), q) =~= models(kept@));
            assert(models(dropped@) + hidden_after(models(self.shown@), q) =~= models(dropped@));
            assert(models(self.hidden@) == hidden0);
        }
        while self.hidden.len() > 0
            invariant
                q == self.query@,
                self.text == old(self).text,
                self.log == old(self).log,
                self.verbose == old(self).verbose,
                self.selected == old(self).selected,
                self.query == old(self).query,
                models(kept@) + shown_after(models(self.hidden@), q) == shown_after(shown0, q)
                    + shown_after(hidden0, q),
                models(dropped@) + hidden_after(models(self.hidden@), q) == hidden_after(
                    shown0,
                    q,
                ) + hidden_after(hidden0, q),
            decreases self.hidden.len(),
        {
            let ghost pre = models(self.hidden@);
            let ghost kept0 = models(kept@);
            let ghost dropped0 = models(dropped@);
            let mut a = self.hidden.remove(0);
            proof {
                assert(models(self.hidden@) =~= pre.drop_first());
                assert(pre[0int] == a@);
            }
            match fuzzy_match_score(a.name.as_str(), self.query.as_str()) {
                Some(sc) => {
                    a.score = sc;
                    proof {
                        assert(a@ == pre[0int].with_score(sc));
                    }
                    kept.push(a);
                    proof {
                        assert(models(kept@) =~= kept0.push(pre[0int].with_score(sc)));
                        assert(shown_after(pre, q) == seq![pre[0int].with_score(sc)]
                            + shown_after(pre.drop_first(), q));
                        assert(kept0.push(pre[0int].with_score(sc)) + shown_after(
                            pre.drop_first(),
                            q,
                        ) =~= kept0 + shown_after(pre, q));
                    }
                },
                None => {
                    a.score = 0;
                    proof {
                        assert(a@ == pre[0int].with_score(0));
                    }
                    dropped.push(a);
                    proof {
                        assert(models(dropped@) =~= dropped0.push(pre[0int].with_score(0)));
                        assert(hidden_after(pre, q) == seq![pre[0int].with_score(0)]
                            + hidden_after(pre.drop_first(), q));
                        assert(dropped0.push(pre[0int].with_score(0)) + hidden_after(
                            pre.drop_first(),
                            q,
                        ) =~= dropped0 + hidden_after(pre, q));
                    }
                },
            }
        }
        proof {
            assert(models(self.hidden@) =~= Seq::<AppModel>::empty());
            assert(models(kept@) + shown_after(models(self.hidden@), q) =~= models(kept@));
            assert(models(dropped@) + hidden_after(models(self.hidden@), q) =~= models(dropped@));
            lemma_partition_append(shown0, hidden0, q);
        }
        let sorted = sort_by_rank(kept);
        self.shown = sorted;
        self.hidden = dropped;
        let ghost log0 = self.log@;
        if self.shown.len() == 0 {
            self.selected = None;
            self.log.push(String::from_str("NO ITEMS!"));
        } else {
            self.selected = Some(0);
        }
        self.log.push(String::from_str("update_filter\n"));
        proof {
            lemma_sort_ranked_ensures(shown_after(shown0 + hidden0, q));
            lemma_partition_complete(shown0 + hidden0, q);
            let m = models(self.shown@);
            assert forall|i: int| 0 <= i < self.shown@.len() - 1 implies (#[trigger] m[i]).score
                >= m[i + 1].score by {
                assert(rank_le(m[i], m[i + 1]));
            }
            if m.len() == 0 {
                assert(log_models(self.log@) =~= log_models(log0) + seq![
                    "NO ITEMS!"@,
                    "update_filter\n"@,
                ]);
            } else {
                assert(log_models(self.log@) =~= log_models(log0).push("update_filter\n"@));
            }
        }
    }
}

} // verus!
