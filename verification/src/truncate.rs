//! Truncator: bounds a string to a maximum number of characters for compact
//! display contexts (tooltips), counting Unicode scalar values, not bytes.

use vstd::prelude::*;

use crate::strutil::push_char;

verus! {

/// The character bound for tooltips over values.
pub const TOOLTIP_MAX_CHARS: usize = 80;

/// The character bound for tooltips showing a predicate's description.
pub const COMMENT_TOOLTIP_MAX_CHARS: usize = TOOLTIP_MAX_CHARS * 3;

/// The character appended when a string had to be cut short.
pub open spec fn ellipsis() -> char {
    '…'
}

/// What `ellipsize` returns: the string itself when it fits, otherwise its
/// first `max_chars` characters followed by a single ellipsis character.
pub open spec fn spec_ellipsize(s: Seq<char>, max_chars: nat) -> Seq<char> {
    if s.len() <= max_chars {
        s
    } else {
        s.subrange(0, max_chars as int).push(ellipsis())
    }
}

/// A string short enough is returned unchanged; a longer one is cut to
/// exactly `max_chars + 1` characters, the last of which is the ellipsis.
pub proof fn lemma_ellipsize_bounds(s: Seq<char>, max_chars: nat)
    ensures
        s.len() <= max_chars ==> spec_ellipsize(s, max_chars) == s,
        s.len() > max_chars ==> spec_ellipsize(s, max_chars).len() == max_chars + 1,
        s.len() > max_chars ==> spec_ellipsize(s, max_chars).last() == ellipsis(),
{
}

/// Bounds `s` to at most `max_chars` characters, appending an ellipsis when
/// something was cut off.
pub fn ellipsize(s: &str, max_chars: usize) -> (r: String)
    ensures
        r@ == spec_ellipsize(s@, max_chars as nat),
{
    let len = s.unicode_len();
    if len <= max_chars {
        s.to_owned()
    } else {
        let mut out = String::new();
        let mut i: usize = 0;
        while i < max_chars
            invariant
                i <= max_chars,
                max_chars < len,
                len == s@.len(),
                out@ == s@.subrange(0, i as int),
            decreases max_chars - i,
        {
            let c = s.get_char(i);
            push_char(&mut out, c);
            proof {
                assert(out@ =~= s@.subrange(0, i + 1 as int));
            }
            i += 1;
        }
        push_char(&mut out, '…');
        out
    }
}

} // verus!
