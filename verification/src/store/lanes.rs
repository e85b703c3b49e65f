//! The layout of lanes on disk: what is checked before a store is opened.

use crate::store::naming::StoreSettings;
use crate::text::{
    decimal, is_digit, joined, lemma_decimal_value, lemma_parse_decimal, parse_u64, parsed_u64,
    push_decimal, trim_space, trim_space_end, trim_space_start, trimmed,
};
use vstd::prelude::*;

verus! {

/// Why a layout is refused.
#[derive(Clone, Copy, Debug, PartialEq, Eq, Structural)]
pub enum LaneFaultKind {
    /// The mark with the number of lanes is no number.
    CorruptMarker,
    /// The layout has another number of lanes.
    OtherCount,
    /// The layout is flat, and more than one lane is asked for.
    FlatLayout,
    /// A lane is empty where it should not be.
    MissingLane,
}

/// Why a layout is refused, in words.
pub struct LaneFault {
    pub kind: LaneFaultKind,
    pub message: String,
}

/// The number of lanes that a mark gives, if it is one.
pub open spec fn marked_lanes(text: Seq<char>) -> Option<u64> {
    match parsed_u64(trim_space(text)) {
        Some(n) => if n <= usize::MAX {
            Some(n)
        } else {
            None
        },
        None => None,
    }
}

/// What is wrong with a layout, given its mark and whether files lie in the flat
/// directory.
pub open spec fn layout_fault(
    marker: Option<Seq<char>>,
    has_files: bool,
    lanes: usize,
) -> Option<LaneFaultKind> {
    match marker {
        Some(text) => match marked_lanes(text) {
            None => Some(LaneFaultKind::CorruptMarker),
            Some(n) => if n != lanes {
                Some(LaneFaultKind::OtherCount)
            } else {
                None
            },
        },
        None => if lanes > 1 && has_files {
            Some(LaneFaultKind::FlatLayout)
        } else {
            None
        },
    }
}

/// The words for a fault of the layout.
pub open spec fn layout_message(
    kind: LaneFaultKind,
    marker: Option<Seq<char>>,
    marker_path: Seq<char>,
    lanes: usize,
) -> Seq<char> {
    match kind {
        LaneFaultKind::CorruptMarker => "corrupt stream-lane marker "@ + marker_path,
        LaneFaultKind::OtherCount => "--stream-lanes "@ + decimal(lanes as nat)
            + " does not match this data dir's on-disk layout ("@ + decimal(
            marked_lanes(marker->0)->0 as nat,
        ) + " lanes, recorded in "@ + marker_path
            + "). The lane count is a layout choice and must match across restarts."@,
        _ =>
        "--stream-lanes > 1 over an existing flat streams/ layout; this data dir was created with 1 lane"@,
    }
}

/// Check the mark with the number of lanes. Where there is none yet, hand out
/// what it has to say.
pub fn check_layout(
    marker: Option<&str>,
    marker_path: &str,
    has_files: bool,
    settings: &StoreSettings,
) -> (r: Result<Option<String>, LaneFault>)
    ensures
        ({
            let text = match marker {
                Some(text) => Some(text@),
                None => None,
            };
            let lanes = settings.lanes();
            match r {
                Ok(None) => marker is Some && layout_fault(text, has_files, lanes) is None,
                Ok(Some(written)) => marker is None && layout_fault(text, has_files, lanes) is None
                    && written@ == decimal(lanes as nat) + "\n"@,
                Err(fault) => {
                    &&& layout_fault(text, has_files, lanes) == Some(fault.kind)
                    &&& fault.message@ == layout_message(fault.kind, text, marker_path@, lanes)
                },
            }
        }),
{
    let lanes = settings.stream_lanes();
    match marker {
        Some(text) => {
            let bare = trimmed(text);
            match parse_u64(bare.as_str()) {
                Some(n) if n <= usize::MAX as u64 => {
                    if n != lanes as u64 {
                        let mut message = "--stream-lanes ".to_owned();
                        push_decimal(&mut message, lanes as u64);
                        message.append(" does not match this data dir's on-disk layout (");
                        push_decimal(&mut message, n);
                        message.append(" lanes, recorded in ");
                        message.append(marker_path);
                        message.append(
                            "). The lane count is a layout choice and must match across restarts.",
                        );
                        return Err(LaneFault { kind: LaneFaultKind::OtherCount, message });
                    }
                    Ok(None)
                },
                _ => Err(
                    LaneFault {
                        kind: LaneFaultKind::CorruptMarker,
                        message: joined("corrupt stream-lane marker ", marker_path),
                    },
                ),
            }
        },
        None => {
            if lanes > 1 && has_files {
                return Err(
                    LaneFault {
                        kind: LaneFaultKind::FlatLayout,
                        message:
                            "--stream-lanes > 1 over an existing flat streams/ layout; this data dir was created with 1 lane".to_owned(),
                    },
                );
            }
            let mut written = String::new();
            push_decimal(&mut written, lanes as u64);
            written.append("\n");
            assert(written@ =~= decimal(lanes as nat) + "\n"@);
            Ok(Some(written))
        },
    }
}

/// The words for a lane whose device is not mounted.
pub open spec fn missing_message(lane: usize, dir: Seq<char>) -> Seq<char> {
    "stream lane "@ + decimal(lane as nat) + " at "@ + dir
        + " is empty and unmarked on an initialized store — its device mount is likely missing. Refusing to boot: continuing would drop every stream on this lane and the WAL reset would destroy their acked records. Mount the lane device (or restore its data) and restart."@
}

/// Check one lane of a store. Once the store is initialized, a lane without its
/// mark and without contents is one whose device is not mounted. A lane with
/// contents and no mark is taken over.
pub fn check_lane(lane: usize, dir: &str, initialized: bool, marked: bool, has_contents: bool) -> (r:
    Result<(), LaneFault>)
    ensures
        r is Err <==> initialized && !marked && !has_contents,
        r matches Err(fault) ==> fault.kind == LaneFaultKind::MissingLane && fault.message@
            == missing_message(lane, dir@),
{
    if initialized && !marked && !has_contents {
        let mut message = "stream lane ".to_owned();
        push_decimal(&mut message, lane as u64);
        message.append(" at ");
        message.append(dir);
        message.append(
            " is empty and unmarked on an initialized store — its device mount is likely missing. Refusing to boot: continuing would drop every stream on this lane and the WAL reset would destroy their acked records. Mount the lane device (or restore its data) and restart.",
        );
        return Err(LaneFault { kind: LaneFaultKind::MissingLane, message });
    }
    Ok(())
}

/// A layout that was marked for a number of lanes is accepted with that number
/// and refused with every other one.
pub proof fn law_layout_is_pinned(lanes: usize, other: usize, has_files: bool)
    ensures
        layout_fault(Some(decimal(lanes as nat) + "\n"@), has_files, other) == (if lanes == other {
            None
        } else {
            Some(LaneFaultKind::OtherCount)
        }),
{
    reveal_strlit("\n");
    let number = decimal(lanes as nat);
    let text = number + "\n"@;
    lemma_decimal_value(lanes as nat);
    assert(is_digit(number[0]));
    assert(is_digit(number.last()));
    assert(text[0] == number[0]);
    assert(trim_space_start(text) == text);
    assert(text.last() == '\n');
    assert(text.drop_last() =~= number);
    reveal_with_fuel(trim_space_end, 2);
    assert(trim_space_end(text) == number);
    assert(trim_space(text) == number);
    lemma_parse_decimal(lanes as u64);
}

/// A directory without a mark takes any number of lanes while it is empty, and one
/// lane where it holds files already. A mark that is no number is a fault.
pub proof fn law_unmarked_layout_has_one_lane(has_files: bool, lanes: usize, text: Seq<char>)
    ensures
        layout_fault(None, false, lanes) is None,
        lanes <= 1 ==> layout_fault(None, has_files, lanes) is None,
        lanes > 1 ==> layout_fault(None, true, lanes) == Some(LaneFaultKind::FlatLayout),
        parsed_u64(trim_space(text)) is None ==> layout_fault(Some(text), has_files, lanes) == Some(
            LaneFaultKind::CorruptMarker,
        ),
{
}

} // verus!
