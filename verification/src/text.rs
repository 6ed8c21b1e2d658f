//! White space, trimming and other small facts about strings.

use vstd::prelude::*;

verus! {

/// The characters with the Unicode property `White_Space`.
pub open spec fn white_space(c: char) -> bool {
    ||| 0x09 <= c as u32 <= 0x0d
    ||| c as u32 == 0x20
    ||| c as u32 == 0x85
    ||| c as u32 == 0xa0
    ||| c as u32 == 0x1680
    ||| 0x2000 <= c as u32 <= 0x200a
    ||| 0x2028 <= c as u32 <= 0x2029
    ||| c as u32 == 0x202f
    ||| c as u32 == 0x205f
    ||| c as u32 == 0x3000
}

/// Whether `c` has the Unicode property `White_Space`.
pub fn is_white_space(c: char) -> (r: bool)
    ensures
        r == white_space(c),
{
    let code: u32 = c as u32;
    (0x09 <= code && code <= 0x0d) || code == 0x20 || code == 0x85 || code == 0xa0 || code == 0x1680
        || (0x2000 <= code && code <= 0x200a) || code == 0x2028 || code == 0x2029 || code == 0x202f
        || code == 0x205f || code == 0x3000
}

/// `s` without the white space that it starts with.
pub open spec fn trimmed_start(s: Seq<char>) -> Seq<char>
    decreases s.len(),
{
    if s.len() > 0 && white_space(s[0]) {
        trimmed_start(s.skip(1))
    } else {
        s
    }
}

/// `s` without the white space that it ends with.
pub open spec fn trimmed_end(s: Seq<char>) -> Seq<char>
    decreases s.len(),
{
    if s.len() > 0 && white_space(s.last()) {
        trimmed_end(s.drop_last())
    } else {
        s
    }
}

/// `s` without the white space at either end.
pub open spec fn trimmed(s: Seq<char>) -> Seq<char> {
    trimmed_end(trimmed_start(s))
}

/// The characters of `s`, one by one.
pub fn str_chars(s: &str) -> (r: Vec<char>)
    ensures
        r@ == s@,
{
    let mut chars: Vec<char> = Vec::new();
    for c in it: s.chars()
        invariant
            chars@ == it.seq().take(it.index()),
            it.seq() == s@,
    {
        chars.push(c);
    }
    chars
}

/// `s` without the white space at either end.
pub fn trim(s: &str) -> (r: &str)
    ensures
        r@ == trimmed(s@),
{
    let chars = str_chars(s);
    let mut start: usize = 0;
    assert(s@.skip(0) =~= s@);
    while start < chars.len() && is_white_space(chars[start])
        invariant
            start <= chars@.len(),
            chars@ == s@,
            trimmed_start(s@) == trimmed_start(s@.skip(start as int)),
        decreases chars@.len() - start,
    {
        assert(s@.skip(start as int).skip(1) =~= s@.skip(start + 1));
        start += 1;
    }
    let ghost rest = s@.skip(start as int);
    let mut end: usize = chars.len();
    assert(s@.subrange(start as int, end as int) =~= rest);
    while start < end && is_white_space(chars[end - 1])
        invariant
            start <= end <= chars@.len(),
            chars@ == s@,
            rest == s@.skip(start as int),
            trimmed_end(rest) == trimmed_end(s@.subrange(start as int, end as int)),
        decreases end,
    {
        assert(s@.subrange(start as int, end as int).drop_last() =~= s@.subrange(
            start as int,
            end - 1,
        ));
        end -= 1;
    }
    s.substring_char(start, end)
}

/// How much is taken off the start: white space, up to a character that is none.
proof fn lemma_trimmed_start(s: Seq<char>) -> (start: int)
    ensures
        0 <= start <= s.len(),
        trimmed_start(s) == s.skip(start),
        forall|k: int| 0 <= k < start ==> white_space(#[trigger] s[k]),
        start < s.len() ==> !white_space(s[start]),
    decreases s.len(),
{
    if s.len() > 0 && white_space(s[0]) {
        let rest = s.skip(1);
        let start = lemma_trimmed_start(rest);
        assert(rest.skip(start) =~= s.skip(start + 1));
        assert forall|k: int| 0 <= k < start + 1 implies white_space(#[trigger] s[k]) by {
            if k > 0 {
                assert(rest[k - 1] == s[k]);
            }
        }
        if start < rest.len() {
            assert(rest[start] == s[start + 1]);
        }
        start + 1
    } else {
        assert(s.skip(0) =~= s);
        0
    }
}

/// How much is left before the end: all up to a character that is no white space.
proof fn lemma_trimmed_end(s: Seq<char>) -> (end: int)
    ensures
        0 <= end <= s.len(),
        trimmed_end(s) == s.take(end),
        forall|k: int| end <= k < s.len() ==> white_space(#[trigger] s[k]),
        end > 0 ==> !white_space(s[end - 1]),
    decreases s.len(),
{
    if s.len() > 0 && white_space(s.last()) {
        let rest = s.drop_last();
        let end = lemma_trimmed_end(rest);
        assert(rest.take(end) =~= s.take(end));
        assert forall|k: int| end <= k < s.len() implies white_space(#[trigger] s[k]) by {
            if k < rest.len() {
                assert(rest[k] == s[k]);
            }
        }
        end
    } else {
        assert(s.take(s.len() as int) =~= s);
        s.len() as int
    }
}

/// Trimming takes white space off both ends and nothing else: what is left is a part of the
/// text with only white space around it, and starts and ends with something else.
pub proof fn law_trimmed(s: Seq<char>)
    ensures
        exists|start: int, end: int|
            0 <= start <= end <= s.len() && trimmed(s) == #[trigger] s.subrange(start, end) && (
            forall|k: int| 0 <= k < start || end <= k < s.len() ==> white_space(#[trigger] s[k])),
        trimmed(s).len() > 0 ==> !white_space(trimmed(s)[0]) && !white_space(trimmed(s).last()),
{
    let start = lemma_trimmed_start(s);
    let rest = s.skip(start);
    let len = lemma_trimmed_end(rest);
    assert(rest.take(len) =~= s.subrange(start, start + len));
    assert forall|k: int| 0 <= k < start || start + len <= k < s.len() implies white_space(
        #[trigger] s[k],
    ) by {
        if k >= start {
            assert(rest[k - start] == s[k]);
        }
    }
    if len > 0 {
        assert(rest[0] == s[start]);
        assert(rest[len - 1] == s[start + len - 1]);
    }
}

} // verus!
