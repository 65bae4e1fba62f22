//! Small string operations on characters: trimming whitespace, ASCII
//! case-insensitive comparison and the last segment of a path.
use vstd::prelude::*;

verus! {

/// The characters with the Unicode `White_Space` property, which
/// `char::is_whitespace` and `str::trim` go by.
pub open spec fn white_space(c: char) -> bool {
    let v = c as u32;
    (0x09 <= v <= 0x0D) || v == 0x20 || v == 0x85 || v == 0xA0 || v == 0x1680 || (0x2000 <= v
        <= 0x200A) || v == 0x2028 || v == 0x2029 || v == 0x202F || v == 0x205F || v == 0x3000
}

/// Whether `c` has the Unicode `White_Space` property.
pub fn char_is_whitespace(c: char) -> (b: bool)
    ensures
        b == white_space(c),
{
    let v = c as u32;
    (0x09 <= v && v <= 0x0D) || v == 0x20 || v == 0x85 || v == 0xA0 || v == 0x1680 || (0x2000
        <= v && v <= 0x200A) || v == 0x2028 || v == 0x2029 || v == 0x202F || v == 0x205F || v
        == 0x3000
}

/// `s` without its leading whitespace.
pub open spec fn trim_start(s: Seq<char>) -> Seq<char>
    decreases s.len(),
{
    if s.len() > 0 && white_space(s[0]) {
        trim_start(s.drop_first())
    } else {
        s
    }
}

/// `s` without its trailing whitespace.
pub open spec fn trim_end(s: Seq<char>) -> Seq<char>
    decreases s.len(),
{
    if s.len() > 0 && white_space(s.last()) {
        trim_end(s.drop_last())
    } else {
        s
    }
}

/// `s` without leading and trailing whitespace.
pub open spec fn trim(s: Seq<char>) -> Seq<char> {
    trim_end(trim_start(s))
}

/// The trimmed text, or `None` when nothing but whitespace remains.
pub open spec fn spec_trimmed(s: Seq<char>) -> Option<Seq<char>> {
    if trim(s).len() == 0 {
        None
    } else {
        Some(trim(s))
    }
}

/// `input` without surrounding whitespace, or `None` if that leaves nothing.
pub fn trimmed(input: &str) -> (out: Option<&str>)
    ensures
        match out {
            Some(t) => spec_trimmed(input@) == Some(t@),
            None => spec_trimmed(input@) is None,
        },
{
    let n = input.unicode_len();
    let ghost s = input@;
    let mut start: usize = 0;
    assert(s.subrange(0, n as int) =~= s);
    while start < n && char_is_whitespace(input.get_char(start))
        invariant
            n == s.len(),
            s == input@,
            0 <= start <= n,
            trim_start(s) == trim_start(s.subrange(start as int, n as int)),
        decreases n - start,
    {
        assert(s.subrange(start as int, n as int).drop_first() =~= s.subrange(
            start + 1,
            n as int,
        ));
        start = start + 1;
    }
    let ghost front = s.subrange(start as int, n as int);
    assert(trim_start(s) == front);
    let mut end: usize = n;
    while end > start && char_is_whitespace(input.get_char(end - 1))
        invariant
            n == s.len(),
            s == input@,
            0 <= start <= end <= n,
            front == s.subrange(start as int, n as int),
            trim(s) == trim_end(s.subrange(start as int, end as int)),
        decreases end - start,
    {
        assert(s.subrange(start as int, end as int).drop_last() =~= s.subrange(
            start as int,
            end - 1,
        ));
        end = end - 1;
    }
    let ghost back = s.subrange(start as int, end as int);
    assert(trim(s) == back);
    if start == end {
        assert(back.len() == 0);
        None
    } else {
        Some(input.substring_char(start, end))
    }
}

/// The code of `c` after mapping `A`–`Z` to `a`–`z`.
pub open spec fn ascii_lower_code(c: char) -> u32 {
    if 65 <= c as u32 <= 90 {
        (c as u32 + 32) as u32
    } else {
        c as u32
    }
}

/// `a` and `b` are equal up to ASCII letter case.
pub open spec fn spec_eq_ignore_ascii_case(a: Seq<char>, b: Seq<char>) -> bool {
    &&& a.len() == b.len()
    &&& forall|i: int| 0 <= i < a.len() ==> ascii_lower_code(#[trigger] a[i]) == ascii_lower_code(b[i])
}

/// The code of `c` after mapping `A`–`Z` to `a`–`z`.
fn lower_code(c: char) -> (code: u32)
    ensures
        code == ascii_lower_code(c),
{
    let v = c as u32;
    if 65 <= v && v <= 90 {
        v + 32
    } else {
        v
    }
}

/// Whether `a` and `b` are equal up to ASCII letter case.
pub fn eq_ignore_ascii_case(a: &str, b: &str) -> (eq: bool)
    ensures
        eq == spec_eq_ignore_ascii_case(a@, b@),
{
    let n = a.unicode_len();
    if n != b.unicode_len() {
        return false;
    }
    let mut i: usize = 0;
    while i < n
        invariant
            n == a@.len(),
            n == b@.len(),
            0 <= i <= n,
            forall|j: int| 0 <= j < i ==> ascii_lower_code(#[trigger] a@[j]) == ascii_lower_code(b@[j]),
        decreases n - i,
    {
        if lower_code(a.get_char(i)) != lower_code(b.get_char(i)) {
            return false;
        }
        i = i + 1;
    }
    true
}

/// What follows the last `/` of `s` (all of `s` if it has none).
pub open spec fn last_segment(s: Seq<char>) -> Seq<char>
    decreases s.len(),
{
    if s.len() == 0 {
        s
    } else if s.last() == '/' {
        Seq::empty()
    } else {
        last_segment(s.drop_last()).push(s.last())
    }
}

/// The last segment of a device path, used to name the device in messages.
pub fn label_for_path(path: &str) -> (label: &str)
    ensures
        label@ == last_segment(path@),
{
    let n = path.unicode_len();
    let ghost s = path@;
    let mut k: usize = n;
    assert(s.subrange(0, n as int) =~= s);
    assert(last_segment(s) + s.subrange(n as int, n as int) =~= last_segment(s));
    while k > 0 && path.get_char(k - 1) != '/'
        invariant
            n == s.len(),
            s == path@,
            0 <= k <= n,
            last_segment(s) == last_segment(s.subrange(0, k as int)) + s.subrange(k as int, n as int),
        decreases k,
    {
        let ghost pre = s.subrange(0, k as int);
        assert(pre.drop_last() =~= s.subrange(0, k - 1));
        assert(last_segment(pre) == last_segment(s.subrange(0, k - 1)).push(s[k - 1]));
        assert(s.subrange(k - 1, n as int) =~= seq![s[k - 1]] + s.subrange(k as int, n as int));
        assert(last_segment(s.subrange(0, k - 1)).push(s[k - 1]) + s.subrange(k as int, n as int)
            =~= last_segment(s.subrange(0, k - 1)) + s.subrange(k - 1, n as int));
        k = k - 1;
    }
    if k == 0 {
        assert(s.subrange(0, n as int) =~= s);
    }
    path.substring_char(k, n)
}

} // verus!
