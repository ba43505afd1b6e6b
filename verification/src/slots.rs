//! Which pad belongs in which slot.

use vstd::prelude::*;

use crate::device::{InfoView, SmxInfo};

verus! {

/// Serial numbers pinned to the two slots, as values.
pub open spec fn pinned(assignment: Seq<Option<String>>) -> Seq<Option<Seq<char>>> {
    Seq::new(
        assignment.len(),
        |i: int|
            match assignment[i] {
                Some(s) => Some(s@),
                None => None,
            },
    )
}

/// Whether the pinned serial numbers want the pads in the two slots exchanged;
/// nothing if they do not decide.
///
/// With two pads, only a full pair of serial numbers that are just theirs decides.
/// A lone pad belongs into the slot that its serial number is pinned to; if it is
/// pinned to both, it stays.
pub open spec fn override_of(
    assignment: Seq<Option<Seq<char>>>,
    info0: InfoView,
    info1: InfoView,
) -> Option<bool> {
    let p1 = assignment[0];
    let p2 = assignment[1];
    if info0.connected && info1.connected {
        if p1 is None || p2 is None {
            None
        } else if p1 == Some(info0.serial) && p2 == Some(info1.serial) {
            Some(false)
        } else if p2 == Some(info0.serial) && p1 == Some(info1.serial) {
            Some(true)
        } else {
            None
        }
    } else if info0.connected {
        if p1 == Some(info0.serial) {
            Some(false)
        } else if p2 == Some(info0.serial) {
            Some(true)
        } else {
            None
        }
    } else if info1.connected {
        if p2 == Some(info1.serial) {
            Some(false)
        } else if p1 == Some(info1.serial) {
            Some(true)
        } else {
            None
        }
    } else {
        None
    }
}

/// Whether the jumpers want the pads exchanged: a player 2 pad in the first slot or
/// a player 1 pad in the second. Two pads with the same jumper stay as they are.
pub open spec fn jumper_wants_swap(info0: InfoView, info1: InfoView) -> bool {
    if info0.connected && info1.connected && info0.is_player2 == info1.is_player2 {
        false
    } else {
        (info0.connected && info0.is_player2) || (info1.connected && !info1.is_player2)
    }
}

/// Whether the pads are to be exchanged: as pinned, else as jumpered.
pub open spec fn wants_swap(
    assignment: Seq<Option<Seq<char>>>,
    info0: InfoView,
    info1: InfoView,
) -> bool {
    match override_of(assignment, info0, info1) {
        Some(swap) => swap,
        None => jumper_wants_swap(info0, info1),
    }
}

fn is_pinned(pin: &Option<String>, serial: &String) -> (r: bool)
    ensures
        r == (match *pin {
            Some(s) => s@ == serial@,
            None => false,
        }),
{
    match pin {
        Some(s) => *s == *serial,
        None => false,
    }
}

/// Decides from the pinned serial numbers whether the pads are to be exchanged;
/// `None` if they do not decide.
pub fn override_should_swap(assignment: &[Option<String>; 2], info0: &SmxInfo, info1: &SmxInfo) -> (r: Option<
    bool,
>)
    ensures
        r == override_of(pinned(assignment@), info0@, info1@),
{
    if info0.connected && info1.connected {
        if assignment[0].is_none() || assignment[1].is_none() {
            None
        } else if is_pinned(&assignment[0], &info0.serial) && is_pinned(
            &assignment[1],
            &info1.serial,
        ) {
            Some(false)
        } else if is_pinned(&assignment[1], &info0.serial) && is_pinned(
            &assignment[0],
            &info1.serial,
        ) {
            Some(true)
        } else {
            None
        }
    } else if info0.connected {
        if is_pinned(&assignment[0], &info0.serial) {
            Some(false)
        } else if is_pinned(&assignment[1], &info0.serial) {
            Some(true)
        } else {
            None
        }
    } else if info1.connected {
        if is_pinned(&assignment[1], &info1.serial) {
            Some(false)
        } else if is_pinned(&assignment[0], &info1.serial) {
            Some(true)
        } else {
            None
        }
    } else {
        None
    }
}

/// Decides whether the pads are to be exchanged.
pub fn should_swap(assignment: &[Option<String>; 2], info0: &SmxInfo, info1: &SmxInfo) -> (r: bool)
    ensures
        r == wants_swap(pinned(assignment@), info0@, info1@),
{
    match override_should_swap(assignment, info0, info1) {
        Some(swap) => swap,
        None => if info0.connected && info1.connected && info0.is_player2 == info1.is_player2 {
            false
        } else {
            (info0.connected && info0.is_player2) || (info1.connected && !info1.is_player2)
        },
    }
}

// ─── Laws ────────────────────────────────────────────────────────────────────

/// Ordering settles at once: pads that were exchanged are not exchanged back.
pub proof fn law_swap_is_not_undone(
    assignment: Seq<Option<Seq<char>>>,
    info0: InfoView,
    info1: InfoView,
)
    requires
        wants_swap(assignment, info0, info1),
    ensures
        !wants_swap(assignment, info1, info0),
{
}

/// Without pinned serial numbers the jumpers decide.
pub proof fn law_no_assignment_follows_the_jumper(
    assignment: Seq<Option<Seq<char>>>,
    info0: InfoView,
    info1: InfoView,
)
    requires
        assignment[0] is None,
        assignment[1] is None,
    ensures
        override_of(assignment, info0, info1) is None,
        wants_swap(assignment, info0, info1) == jumper_wants_swap(info0, info1),
{
}

/// Two pads whose serial numbers are the pinned ones end up as pinned, whatever
/// their jumpers say.
pub proof fn law_full_assignment_beats_the_jumper(
    assignment: Seq<Option<Seq<char>>>,
    info0: InfoView,
    info1: InfoView,
)
    requires
        info0.connected,
        info1.connected,
        (assignment[0] == Some(info0.serial) && assignment[1] == Some(info1.serial)) || (
        assignment[0] == Some(info1.serial) && assignment[1] == Some(info0.serial)),
    ensures
        ({
            let swap = wants_swap(assignment, info0, info1);
            let first = if swap {
                info1
            } else {
                info0
            };
            let second = if swap {
                info0
            } else {
                info1
            };
            assignment[0] == Some(first.serial) && assignment[1] == Some(second.serial)
        }),
{
}

/// A lone pad pinned to one slot ends up in it, whatever its jumper says.
pub proof fn law_lone_pad_goes_to_its_slot(
    assignment: Seq<Option<Seq<char>>>,
    info: InfoView,
    other: InfoView,
)
    requires
        info.connected,
        !other.connected,
    ensures
        assignment[0] == Some(info.serial) && assignment[1] != Some(info.serial) ==> !wants_swap(
            assignment,
            info,
            other,
        ) && wants_swap(assignment, other, info),
        assignment[1] == Some(info.serial) && assignment[0] != Some(info.serial) ==> wants_swap(
            assignment,
            info,
            other,
        ) && !wants_swap(assignment, other, info),
{
}

/// Two pads with different jumpers and nothing pinned end up with player 1 in the
/// first slot and player 2 in the second.
pub proof fn law_jumpers_order_two_pads(
    assignment: Seq<Option<Seq<char>>>,
    info0: InfoView,
    info1: InfoView,
)
    requires
        assignment[0] is None,
        assignment[1] is None,
        info0.connected,
        info1.connected,
        info0.is_player2 != info1.is_player2,
    ensures
        wants_swap(assignment, info0, info1) == info0.is_player2,
{
}

/// A lone pad with nothing pinned goes to the slot that its jumper says: the second one if
/// it is jumpered for player 2, else the first.
pub proof fn law_lone_pad_follows_its_jumper(
    assignment: Seq<Option<Seq<char>>>,
    info: InfoView,
    other: InfoView,
)
    requires
        assignment[0] is None,
        assignment[1] is None,
        info.connected,
        !other.connected,
    ensures
        wants_swap(assignment, info, other) == info.is_player2,
        wants_swap(assignment, other, info) == !info.is_player2,
{
}

/// Two pads are ordered by pinned serial numbers only if both slots are pinned and the pads
/// are just those two; else, and if they share a jumper, they stay as they are or as
/// jumpered. A lone pad that is pinned to both slots stays where it is.
pub proof fn law_half_an_assignment_does_not_order_two_pads(
    assignment: Seq<Option<Seq<char>>>,
    info0: InfoView,
    info1: InfoView,
)
    requires
        info0.connected,
    ensures
        info1.connected && (assignment[0] is None || assignment[1] is None) ==> wants_swap(
            assignment,
            info0,
            info1,
        ) == (info0.is_player2 && !info1.is_player2),
        info1.connected && assignment[0] != Some(info0.serial) && assignment[1] != Some(
            info0.serial,
        ) ==> wants_swap(assignment, info0, info1) == (info0.is_player2 && !info1.is_player2),
        !info1.connected && assignment[0] == Some(info0.serial) && assignment[1] == Some(
            info0.serial,
        ) ==> !wants_swap(assignment, info0, info1) && !wants_swap(assignment, info1, info0),
{
}

} // verus!
