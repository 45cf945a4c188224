//! Points earned by one session, by its type label.
use vstd::prelude::*;

verus! {

pub open spec fn short_label() -> Seq<char> {
    seq!['1', '-', 'h', 'o', 'u', 'r']
}

pub open spec fn medium_label() -> Seq<char> {
    seq!['2', '-', 'h', 'o', 'u', 'r', 's']
}

pub open spec fn long_label() -> Seq<char> {
    seq!['3', '-', 'h', 'o', 'u', 'r', 's']
}

/// One of the three session types that the service accepts.
pub open spec fn is_known_label(label: Seq<char>) -> bool {
    label == short_label() || label == medium_label() || label == long_label()
}

/// Points of a session type: 10, 12 and 14 for the three known labels, 0 for
/// any other.
pub open spec fn points_of(label: Seq<char>) -> nat {
    if label == short_label() {
        10
    } else if label == medium_label() {
        12
    } else if label == long_label() {
        14
    } else {
        0
    }
}

fn same_text(s: &str, t: &str) -> (r: bool)
    ensures
        r == (s@ == t@),
{
    let n = s.unicode_len();
    if n != t.unicode_len() {
        return false;
    }
    let mut i: usize = 0;
    while i < n
        invariant
            n == s@.len(),
            n == t@.len(),
            0 <= i <= n,
            forall|j: int| 0 <= j < i ==> s@[j] == t@[j],
        decreases n - i,
    {
        if s.get_char(i) != t.get_char(i) {
            return false;
        }
        i = i + 1;
    }
    assert(s@ =~= t@);
    true
}

pub fn calculate_session_points(session_type: &str) -> (r: usize)
    ensures
        r == points_of(session_type@),
{
    proof {
        reveal_strlit("1-hour");
        reveal_strlit("2-hours");
        reveal_strlit("3-hours");
        assert("1-hour"@ =~= short_label());
        assert("2-hours"@ =~= medium_label());
        assert("3-hours"@ =~= long_label());
    }
    if same_text(session_type, "1-hour") {
        10
    } else if same_text(session_type, "2-hours") {
        12
    } else if same_text(session_type, "3-hours") {
        14
    } else {
        0
    }
}

/// Whether the label names one of the three known session types.
pub fn is_valid_session_type(session_type: &str) -> (r: bool)
    ensures
        r == is_known_label(session_type@),
{
    proof {
        reveal_strlit("1-hour");
        reveal_strlit("2-hours");
        reveal_strlit("3-hours");
        assert("1-hour"@ =~= short_label());
        assert("2-hours"@ =~= medium_label());
        assert("3-hours"@ =~= long_label());
    }
    same_text(session_type, "1-hour") || same_text(session_type, "2-hours") || same_text(
        session_type,
        "3-hours",
    )
}

} // verus!
