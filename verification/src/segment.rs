//! The leveled detail projection: display segments for the selected item.

use vstd::prelude::*;

use crate::item::AppModel;
use crate::numfmt::{dec_digits, int_digits};

verus! {

/// How the renderer is to style a segment.
#[derive(Clone, Copy, PartialEq, Eq, Structural, Debug)]
pub enum SegmentKind {
    /// The selected item's name: highlighted.
    Title,
    /// Plain text.
    Plain,
    /// The command line: rendered apart from the label before it.
    Command,
}

/// One segment of the detail view.
#[derive(PartialEq, Eq, Debug)]
pub struct Segment {
    pub kind: SegmentKind,
    pub text: String,
}

/// The model of a segment.
pub ghost struct SegmentModel {
    pub kind: SegmentKind,
    pub text: Seq<char>,
}

impl View for Segment {
    type V = SegmentModel;

    open spec fn view(&self) -> SegmentModel {
        SegmentModel { kind: self.kind, text: self.text@ }
    }
}

/// The models of a sequence of segments.
pub open spec fn segment_models(s: Seq<Segment>) -> Seq<SegmentModel> {
    s.map_values(|x: Segment| x@)
}

/// The label before the command line, marking terminal programs.
pub open spec fn exec_label(is_terminal: bool) -> Seq<char> {
    if is_terminal {
        "Exec (terminal): "@
    } else {
        "Exec: "@
    }
}

/// The detail projection of one selected item, strictly additive in the
/// verbosity level: name and description always; the exec label and the
/// command at level one and above; the run count and the match score at level
/// two and above.
pub open spec fn detail_segments(a: AppModel, verbose: u64) -> Seq<SegmentModel> {
    let base = seq![
        SegmentModel { kind: SegmentKind::Title, text: a.name },
        SegmentModel { kind: SegmentKind::Plain, text: a.description },
    ];
    let exec = seq![
        SegmentModel { kind: SegmentKind::Plain, text: exec_label(a.is_terminal) },
        SegmentModel { kind: SegmentKind::Command, text: a.command },
    ];
    let stats = seq![
        SegmentModel { kind: SegmentKind::Plain, text: "Times run: "@ + dec_digits(a.history as nat) },
        SegmentModel { kind: SegmentKind::Plain, text: "Matching score: "@ + int_digits(a.score as int) },
    ];
    if verbose >= 2 {
        base + exec + stats
    } else if verbose >= 1 {
        base + exec
    } else {
        base
    }
}

/// Raising the verbosity only adds segments: the projection at a lower level
/// is a prefix of the projection at any higher level, and strictly below the
/// top level a strictly higher level shows strictly more segments.
pub proof fn lemma_detail_monotonic(a: AppModel, v1: u64, v2: u64)
    requires
        v1 <= v2,
    ensures
        detail_segments(a, v1).is_prefix_of(detail_segments(a, v2)),
        v1 < 2 && v1 < v2 ==> detail_segments(a, v1).len() < detail_segments(a, v2).len(),
{
    let s1 = detail_segments(a, v1);
    let s2 = detail_segments(a, v2);
    assert(s1.len() <= s2.len());
    assert(s1 =~= s2.subrange(0, s1.len() as int));
}

} // verus!
