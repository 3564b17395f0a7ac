use vstd::prelude::*;

verus! {

/// Whether `c` has the Unicode `White_Space` property, as `char::is_whitespace` decides.
pub open spec fn is_whitespace(c: char) -> bool {
    let u = c as u32;
    ||| 0x9 <= u <= 0xd
    ||| u == 0x20
    ||| u == 0x85
    ||| u == 0xa0
    ||| u == 0x1680
    ||| 0x2000 <= u <= 0x200a
    ||| u == 0x2028
    ||| u == 0x2029
    ||| u == 0x202f
    ||| u == 0x205f
    ||| u == 0x3000
}

/// `s` without its leading whitespace.
pub open spec fn trim_start(s: Seq<char>) -> Seq<char>
    decreases s.len(),
{
    if s.len() > 0 && is_whitespace(s[0]) {
        trim_start(s.drop_first())
    } else {
        s
    }
}

/// `s` without its trailing whitespace.
pub open spec fn trim_end(s: Seq<char>) -> Seq<char>
    decreases s.len(),
{
    if s.len() > 0 && is_whitespace(s.last()) {
        trim_end(s.drop_last())
    } else {
        s
    }
}

/// `s` without leading and trailing whitespace, as `str::trim` gives it.
pub open spec fn trim(s: Seq<char>) -> Seq<char> {
    trim_end(trim_start(s))
}

/// The payload that marks the end of a Chat Completions stream.
pub open spec fn done_marker() -> Seq<char> {
    seq!['[', 'D', 'O', 'N', 'E', ']']
}

/// Whether `a` and `b` hold the same characters.
pub(crate) fn same_text(a: &str, b: &str) -> (r: bool)
    ensures
        r == (a@ == b@),
{
    let x = String::from_str(a);
    let y = String::from_str(b);
    x == y
}

fn char_is_whitespace(c: char) -> (r: bool)
    ensures
        r == is_whitespace(c),
{
    let u = c as u32;
    (0x9 <= u && u <= 0xd) || u == 0x20 || u == 0x85 || u == 0xa0 || u == 0x1680 || (0x2000
        <= u && u <= 0x200a) || u == 0x2028 || u == 0x2029 || u == 0x202f || u == 0x205f || u
        == 0x3000
}

/// The characters of `s`.
fn chars_of(s: &str) -> (v: Vec<char>)
    ensures
        v@ == s@,
{
    let mut v: Vec<char> = Vec::new();
    for c in it: s.chars()
        invariant
            v@ == it.seq().take(it.index()),
    {
        v.push(c);
    }
    v
}

proof fn lemma_trim_start_skip(s: Seq<char>, i: int)
    requires
        0 <= i < s.len(),
        is_whitespace(s[i]),
    ensures
        trim_start(s.skip(i)) == trim_start(s.skip(i + 1)),
{
    assert(s.skip(i).drop_first() =~= s.skip(i + 1));
}

proof fn lemma_trim_end_take(s: Seq<char>, j: int)
    requires
        0 < j <= s.len(),
        is_whitespace(s[j - 1]),
    ensures
        trim_end(s.take(j)) == trim_end(s.take(j - 1)),
{
    assert(s.take(j).drop_last() =~= s.take(j - 1));
}

/// Whether the payload, with surrounding whitespace removed, is the end marker `[DONE]`.
pub fn is_done_marker(data: &str) -> (r: bool)
    ensures
        r == (trim(data@) == done_marker()),
{
    let v = chars_of(data);
    let n = v.len();
    let mut i: usize = 0;
    assert(v@.skip(0) =~= v@);
    while i < n && char_is_whitespace(v[i])
        invariant
            i <= n == v@.len(),
            trim_start(v@) == trim_start(v@.skip(i as int)),
        decreases n - i,
    {
        proof {
            lemma_trim_start_skip(v@, i as int);
        }
        i = i + 1;
    }
    let ghost rest = v@.skip(i as int);
    assert(trim_start(v@) == rest) by {
        if i < n {
            assert(rest[0] == v@[i as int]);
        } else {
            assert(rest.len() == 0);
        }
    }
    let mut j: usize = n;
    assert(rest.take(rest.len() as int) =~= rest);
    while j > i && char_is_whitespace(v[j - 1])
        invariant
            i <= j <= n == v@.len(),
            rest == v@.skip(i as int),
            trim_end(rest) == trim_end(rest.take(j - i)),
        decreases j - i,
    {
        proof {
            assert(rest[j - i - 1] == v@[j - 1]);
            lemma_trim_end_take(rest, j - i);
        }
        j = j - 1;
    }
    let ghost kept = rest.take(j - i);
    assert(trim(data@) == kept) by {
        if j > i {
            assert(kept.last() == v@[j - 1]);
        } else {
            assert(kept.len() == 0);
        }
    }
    if j - i != 6 {
        return false;
    }
    let r = v[i] == '[' && v[i + 1] == 'D' && v[i + 2] == 'O' && v[i + 3] == 'N' && v[i + 4]
        == 'E' && v[i + 5] == ']';
    assert(kept[0] == v@[i as int] && kept[1] == v@[i + 1] && kept[2] == v@[i + 2] && kept[3]
        == v@[i + 3] && kept[4] == v@[i + 4] && kept[5] == v@[i + 5]);
    if r {
        assert(kept =~= done_marker());
    }
    r
}

} // verus!
