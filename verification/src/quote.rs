//! The single pair of double quotes that the record format may wrap around a
//! path.

use vstd::prelude::*;

verus! {

/// The double-quote byte.
pub const QUOTE: u8 = 0x22;

/// `s` without one leading and without one trailing occurrence of `quote`.
///
/// The two ends are looked at in turn: a sequence that is a lone quote loses
/// it at the front and is then empty, so nothing is left to strip at the back.
pub open spec fn strip_pair<T>(s: Seq<T>, quote: T) -> Seq<T> {
    let front = if s.len() > 0 && s[0] == quote {
        s.subrange(1, s.len() as int)
    } else {
        s
    };
    if front.len() > 0 && front[front.len() - 1] == quote {
        front.subrange(0, front.len() - 1)
    } else {
        front
    }
}

/// Strips at most one leading and one trailing double quote from a string.
pub fn unquote_str(s: &str) -> (r: &str)
    ensures
        r@ == strip_pair(s@, '"'),
{
    let n: usize = s.unicode_len();
    let mut from: usize = 0;
    let mut to: usize = n;
    if from < to && s.get_char(0) == '"' {
        from = 1;
    }
    if from < to && s.get_char(to - 1) == '"' {
        to = to - 1;
    }
    proof {
        let front = if s@.len() > 0 && s@[0] == '"' {
            s@.subrange(1, s@.len() as int)
        } else {
            s@
        };
        assert(front =~= s@.subrange(from as int, n as int));
        assert(strip_pair(s@, '"') =~= s@.subrange(from as int, to as int));
    }
    s.substring_char(from, to)
}

/// Strips at most one leading and one trailing double quote from a byte
/// string, which is how the record format stores paths.
pub fn unquote(s: &[u8]) -> (r: &[u8])
    ensures
        r@ == strip_pair(s@, QUOTE),
{
    let n: usize = s.len();
    let mut from: usize = 0;
    let mut to: usize = n;
    if from < to && s[0] == QUOTE {
        from = 1;
    }
    if from < to && s[to - 1] == QUOTE {
        to = to - 1;
    }
    proof {
        let front = if s@.len() > 0 && s@[0] == QUOTE {
            s@.subrange(1, s@.len() as int)
        } else {
            s@
        };
        assert(front =~= s@.subrange(from as int, n as int));
        assert(strip_pair(s@, QUOTE) =~= s@.subrange(from as int, to as int));
    }
    vstd::slice::slice_subrange(s, from, to)
}

} // verus!
