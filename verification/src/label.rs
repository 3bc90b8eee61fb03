//! Label formatter: converts a predicate or resource identifier into a
//! human-readable label. The local name after the last `#` or `/` (trailing
//! separators ignored) is split into words at internal uppercase boundaries;
//! each word is capitalized and the words are joined with single spaces.

use vstd::prelude::*;

use crate::strutil::push_char;

verus! {

/// Whether the character has the Unicode uppercase property, as
/// char::is_uppercase reports it.
pub uninterp spec fn is_upper(c: char) -> bool;

/// The Unicode uppercase mapping of the character, as char::to_uppercase
/// yields it (one or more characters).
pub uninterp spec fn upper_of(c: char) -> Seq<char>;

/// Relies on char::is_uppercase: whether the character has the Unicode
/// uppercase property, a function of the character alone.
#[verifier::external_body]
fn char_is_uppercase(c: char) -> (r: bool)
    ensures
        r == is_upper(c),
{
    c.is_uppercase()
}

/// Relies on char::to_uppercase: the Unicode uppercase mapping of the
/// character, a function of the character alone.
#[verifier::external_body]
fn char_to_uppercase(c: char) -> (r: Vec<char>)
    ensures
        r@ == upper_of(c),
{
    c.to_uppercase().collect()
}

/// The characters that end a namespace part of an identifier.
pub open spec fn is_separator(c: char) -> bool {
    c == '#' || c == '/'
}

/// The identifier with all trailing separators removed.
pub open spec fn trim_trailing_separators(s: Seq<char>) -> Seq<char>
    decreases s.len(),
{
    if s.len() > 0 && is_separator(s.last()) {
        trim_trailing_separators(s.drop_last())
    } else {
        s
    }
}

/// The suffix after the last separator: the local name of an identifier, or
/// the whole string when it has no separator.
pub open spec fn local_name(s: Seq<char>) -> Seq<char>
    decreases s.len(),
{
    if s.len() == 0 {
        s
    } else if is_separator(s.last()) {
        Seq::empty()
    } else {
        local_name(s.drop_last()).push(s.last())
    }
}

/// Word splitting at uppercase boundaries: a boundary lies immediately before
/// an uppercase character that does not begin the current run. `cur` is the
/// word being accumulated and `acc` the words already complete.
pub open spec fn split_words_rec(s: Seq<char>, cur: Seq<char>, acc: Seq<Seq<char>>) -> Seq<
    Seq<char>,
>
    decreases s.len(),
{
    if s.len() == 0 {
        if cur.len() == 0 {
            acc
        } else {
            acc.push(cur)
        }
    } else if is_upper(s[0]) && cur.len() > 0 {
        split_words_rec(s.skip(1), seq![s[0]], acc.push(cur))
    } else {
        split_words_rec(s.skip(1), cur.push(s[0]), acc)
    }
}

/// The words of a local name, split at internal uppercase boundaries.
pub open spec fn split_words(s: Seq<char>) -> Seq<Seq<char>> {
    split_words_rec(s, Seq::empty(), Seq::empty())
}

/// The word with its first character mapped to uppercase, the rest untouched.
pub open spec fn capitalize(w: Seq<char>) -> Seq<char> {
    if w.len() == 0 {
        w
    } else {
        upper_of(w[0]) + w.skip(1)
    }
}

/// Every word capitalized.
pub open spec fn capitalized(ws: Seq<Seq<char>>) -> Seq<Seq<char>> {
    ws.map_values(|w: Seq<char>| capitalize(w))
}

/// The words joined with single spaces.
pub open spec fn join_with_spaces(ws: Seq<Seq<char>>) -> Seq<char>
    decreases ws.len(),
{
    if ws.len() == 0 {
        Seq::empty()
    } else if ws.len() == 1 {
        ws[0]
    } else {
        join_with_spaces(ws.drop_last()) + seq![' '] + ws.last()
    }
}

/// The character sequences held by a vector of character vectors.
pub open spec fn word_views(words: Seq<Vec<char>>) -> Seq<Seq<char>> {
    words.map_values(|w: Vec<char>| w@)
}

/// The human-readable label of an identifier.
pub open spec fn label_of(uri: Seq<char>) -> Seq<char> {
    join_with_spaces(capitalized(split_words(local_name(trim_trailing_separators(uri)))))
}

/// A suffix holding no separator, cut directly after a separator (or at the
/// start), is the local name.
proof fn lemma_local_name_suffix(t: Seq<char>, start: int)
    requires
        0 <= start <= t.len(),
        forall|j: int| start <= j < t.len() ==> !is_separator(t[j]),
        start > 0 ==> is_separator(t[start - 1]),
    ensures
        local_name(t) == t.subrange(start, t.len() as int),
    decreases t.len(),
{
    if t.len() == 0 {
        assert(local_name(t) =~= t.subrange(start, t.len() as int));
    } else if start == t.len() {
        assert(is_separator(t.last()));
        assert(local_name(t) =~= t.subrange(start, t.len() as int));
    } else {
        assert(!is_separator(t.last()));
        let u = t.drop_last();
        lemma_local_name_suffix(u, start);
        assert(local_name(t) == local_name(u).push(t.last()));
        assert(local_name(u).push(t.last()) =~= t.subrange(start, t.len() as int));
    }
}

/// The index just past the identifier once trailing separators are dropped.
fn trimmed_end(s: &str) -> (end: usize)
    ensures
        end <= s@.len(),
        s@.subrange(0, end as int) == trim_trailing_separators(s@),
{
    let len = s.unicode_len();
    let mut end: usize = len;
    proof {
        assert(s@.subrange(0, len as int) =~= s@);
    }
    loop
        invariant
            end <= len,
            len == s@.len(),
            trim_trailing_separators(s@) == trim_trailing_separators(
                s@.subrange(0, end as int),
            ),
        ensures
            end <= s@.len(),
            s@.subrange(0, end as int) == trim_trailing_separators(s@),
        decreases end,
    {
        if end == 0 {
            assert(s@.subrange(0, 0) =~= Seq::<char>::empty());
            break;
        }
        let c = s.get_char(end - 1);
        if c != '#' && c != '/' {
            assert(s@.subrange(0, end as int).last() == c);
            break;
        }
        proof {
            let cut = s@.subrange(0, end as int);
            assert(cut.last() == c && is_separator(c));
            assert(cut.drop_last() =~= s@.subrange(0, end - 1));
        }
        end = end - 1;
    }
    end
}

/// The index where the local name begins within the trimmed identifier.
fn local_start(s: &str, end: usize) -> (start: usize)
    requires
        end <= s@.len(),
    ensures
        start <= end,
        local_name(s@.subrange(0, end as int)) == s@.subrange(start as int, end as int),
{
    let mut start: usize = end;
    loop
        invariant
            start <= end <= s@.len(),
            forall|j: int| start <= j < end ==> !is_separator(s@[j]),
        ensures
            start <= end,
            forall|j: int| start <= j < end ==> !is_separator(s@[j]),
            start > 0 ==> is_separator(s@[start - 1]),
        decreases start,
    {
        if start == 0 {
            break;
        }
        let c = s.get_char(start - 1);
        if c == '#' || c == '/' {
            break;
        }
        start = start - 1;
    }
    proof {
        let t = s@.subrange(0, end as int);
        assert(forall|j: int| start <= j < t.len() ==> !is_separator(t[j]));
        lemma_local_name_suffix(t, start as int);
        assert(t.subrange(start as int, t.len() as int) =~= s@.subrange(
            start as int,
            end as int,
        ));
    }
    start
}

/// The words of the character range `start..end` of `s`, split at internal
/// uppercase boundaries.
fn split_camel(s: &str, start: usize, end: usize) -> (words: Vec<Vec<char>>)
    requires
        start <= end <= s@.len(),
    ensures
        word_views(words@) == split_words(s@.subrange(start as int, end as int)),
{
    let ghost local = s@.subrange(start as int, end as int);
    let mut words: Vec<Vec<char>> = Vec::new();
    let mut cur: Vec<char> = Vec::new();
    let mut i: usize = start;
    proof {
        assert(local.skip(0) =~= local);
        assert(word_views(words@) =~= Seq::<Seq<char>>::empty());
    }
    while i < end
        invariant
            start <= i <= end <= s@.len(),
            local == s@.subrange(start as int, end as int),
            split_words(local) == split_words_rec(
                local.skip(i - start),
                cur@,
                word_views(words@),
            ),
        decreases end - i,
    {
        let ghost prev_words = word_views(words@);
        let ghost rem = local.skip(i - start);
        let c = s.get_char(i);
        proof {
            assert(rem[0] == s@[i as int]);
            assert(rem.skip(1) =~= local.skip(i + 1 - start));
        }
        if char_is_uppercase(c) && cur.len() > 0 {
            let ghost finished = cur@;
            words.push(cur);
            cur = vec![c];
            proof {
                assert(word_views(words@) =~= prev_words.push(finished));
                assert(cur@ =~= seq![rem[0]]);
            }
        } else {
            cur.push(c);
        }
        i = i + 1;
    }
    if cur.len() > 0 {
        let ghost prev_words = word_views(words@);
        let ghost finished = cur@;
        words.push(cur);
        proof {
            assert(word_views(words@) =~= prev_words.push(finished));
        }
    }
    proof {
        assert(local.skip(end - start) =~= Seq::<char>::empty());
    }
    words
}

/// Renders the words: each capitalized, joined with single spaces.
fn render_words(words: &Vec<Vec<char>>) -> (r: String)
    ensures
        r@ == join_with_spaces(capitalized(word_views(words@))),
{
    let ghost caps = capitalized(word_views(words@));
    let mut out = String::new();
    let mut j: usize = 0;
    while j < words.len()
        invariant
            j <= words@.len(),
            caps == capitalized(word_views(words@)),
            out@ == join_with_spaces(caps.take(j as int)),
        decreases words@.len() - j,
    {
        let ghost out_before = out@;
        if j > 0 {
            push_char(&mut out, ' ');
        }
        let ghost mid = out@;
        let w = &words[j];
        proof {
            assert(caps[j as int] == capitalize(word_views(words@)[j as int]));
            assert(word_views(words@)[j as int] =~= w@);
        }
        if w.len() > 0 {
            let ups = char_to_uppercase(w[0]);
            let mut k: usize = 0;
            while k < ups.len()
                invariant
                    k <= ups@.len(),
                    ups@ == upper_of(w@[0]),
                    out@ == mid + ups@.take(k as int),
                decreases ups@.len() - k,
            {
                push_char(&mut out, ups[k]);
                proof {
                    assert(mid + ups@.take(k + 1 as int) =~= (mid + ups@.take(k as int)).push(
                        ups@[k as int],
                    ));
                }
                k = k + 1;
            }
            proof {
                assert(ups@.take(ups@.len() as int) =~= ups@);
            }
            let mut k2: usize = 1;
            while k2 < w.len()
                invariant
                    1 <= k2 <= w@.len(),
                    ups@ == upper_of(w@[0]),
                    out@ == mid + ups@ + w@.subrange(1, k2 as int),
                decreases w@.len() - k2,
            {
                push_char(&mut out, w[k2]);
                proof {
                    assert(mid + ups@ + w@.subrange(1, k2 + 1 as int) =~= (mid + ups@
                        + w@.subrange(1, k2 as int)).push(w@[k2 as int]));
                }
                k2 = k2 + 1;
            }
            proof {
                assert(w@.subrange(1, w@.len() as int) =~= w@.skip(1));
                assert(out@ =~= mid + capitalize(w@));
            }
        } else {
            proof {
                assert(out@ =~= mid + capitalize(w@));
            }
        }
        proof {
            let take_next = caps.take(j + 1 as int);
            assert(take_next.drop_last() =~= caps.take(j as int));
            assert(take_next.last() == caps[j as int]);
            if j == 0 {
                assert(out@ =~= join_with_spaces(take_next));
            } else {
                assert(out@ =~= join_with_spaces(caps.take(j as int)) + seq![' '] + caps[
                    j as int
                ]);
                assert(out@ =~= join_with_spaces(take_next));
            }
        }
        j = j + 1;
    }
    proof {
        assert(caps.take(words@.len() as int) =~= caps);
    }
    out
}

/// The human-readable label of a predicate or resource identifier: the local
/// name split into words at uppercase boundaries, each word capitalized, the
/// words joined with single spaces.
pub fn friendly_label(uri: &str) -> (r: String)
    ensures
        r@ == label_of(uri@),
{
    let end = trimmed_end(uri);
    let start = local_start(uri, end);
    let words = split_camel(uri, start, end);
    render_words(&words)
}

} // verus!
