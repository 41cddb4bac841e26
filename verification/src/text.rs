//! Characters and whitespace: the trimming that marker recognition and block
//! collection rest on, and the conversions between strings and character
//! vectors.

use vstd::prelude::*;

verus! {

/// The characters that count as whitespace: those with the Unicode property
/// `White_Space`.
pub open spec fn is_whitespace_char(c: char) -> bool {
    let n = c as u32;
    ||| 0x09 <= n <= 0x0D
    ||| n == 0x20
    ||| n == 0x85
    ||| n == 0xA0
    ||| n == 0x1680
    ||| 0x2000 <= n <= 0x200A
    ||| n == 0x2028
    ||| n == 0x2029
    ||| n == 0x202F
    ||| n == 0x205F
    ||| n == 0x3000
}

/// The number of whitespace characters at the start of `s`.
pub open spec fn leading_whitespace(s: Seq<char>) -> nat
    decreases s.len(),
{
    if s.len() > 0 && is_whitespace_char(s[0]) {
        1 + leading_whitespace(s.drop_first())
    } else {
        0
    }
}

/// The number of whitespace characters at the end of `s`.
pub open spec fn trailing_whitespace(s: Seq<char>) -> nat
    decreases s.len(),
{
    if s.len() > 0 && is_whitespace_char(s.last()) {
        1 + trailing_whitespace(s.drop_last())
    } else {
        0
    }
}

/// The whitespace that `s` starts with.
pub open spec fn indent_of(s: Seq<char>) -> Seq<char> {
    s.take(leading_whitespace(s) as int)
}

/// `s` without the whitespace it starts with.
pub open spec fn trimmed_start(s: Seq<char>) -> Seq<char> {
    s.skip(leading_whitespace(s) as int)
}

/// `s` without the whitespace it ends with.
pub open spec fn trimmed_end(s: Seq<char>) -> Seq<char> {
    s.take(s.len() - trailing_whitespace(s))
}

/// `s` without the whitespace at either end.
pub open spec fn trimmed(s: Seq<char>) -> Seq<char> {
    trimmed_end(trimmed_start(s))
}

/// A run of `n` whitespace characters at the start of `s`, followed by a
/// character that is no whitespace or by the end of `s`, is the whole
/// leading run.
pub proof fn lemma_leading_whitespace_is(s: Seq<char>, n: int)
    requires
        0 <= n <= s.len(),
        forall|j: int| 0 <= j < n ==> is_whitespace_char(#[trigger] s[j]),
        n == s.len() || !is_whitespace_char(s[n]),
    ensures
        leading_whitespace(s) == n,
    decreases n,
{
    if n > 0 {
        let rest = s.drop_first();
        assert forall|j: int| 0 <= j < n - 1 implies is_whitespace_char(#[trigger] rest[j]) by {}
        lemma_leading_whitespace_is(rest, n - 1);
    }
}

/// A run of `n` whitespace characters at the end of `s`, preceded by a
/// character that is no whitespace or by the start of `s`, is the whole
/// trailing run.
pub proof fn lemma_trailing_whitespace_is(s: Seq<char>, n: int)
    requires
        0 <= n <= s.len(),
        forall|j: int| s.len() - n <= j < s.len() ==> is_whitespace_char(#[trigger] s[j]),
        n == s.len() || !is_whitespace_char(s[s.len() - n - 1]),
    ensures
        trailing_whitespace(s) == n,
    decreases n,
{
    if n > 0 {
        let rest = s.drop_last();
        assert forall|j: int| rest.len() - (n - 1) <= j < rest.len() implies is_whitespace_char(
            #[trigger] rest[j],
        ) by {}
        lemma_trailing_whitespace_is(rest, n - 1);
    }
}

/// The leading run holds whitespace only, and what follows it, if anything,
/// is no whitespace.
pub proof fn lemma_leading_whitespace(s: Seq<char>)
    ensures
        leading_whitespace(s) <= s.len(),
        forall|j: int| 0 <= j < leading_whitespace(s) ==> is_whitespace_char(#[trigger] s[j]),
        leading_whitespace(s) < s.len() ==> !is_whitespace_char(s[leading_whitespace(s) as int]),
    decreases s.len(),
{
    if s.len() > 0 && is_whitespace_char(s[0]) {
        let rest = s.drop_first();
        lemma_leading_whitespace(rest);
        assert forall|j: int| 0 <= j < leading_whitespace(s) implies is_whitespace_char(
            #[trigger] s[j],
        ) by {
            if j > 0 {
                assert(s[j] == rest[j - 1]);
            }
        }
    }
}

/// The trailing run holds whitespace only, and what precedes it, if
/// anything, is no whitespace.
pub proof fn lemma_trailing_whitespace(s: Seq<char>)
    ensures
        trailing_whitespace(s) <= s.len(),
        forall|j: int|
            s.len() - trailing_whitespace(s) <= j < s.len() ==> is_whitespace_char(#[trigger] s[j]),
        trailing_whitespace(s) < s.len() ==> !is_whitespace_char(
            s[s.len() - trailing_whitespace(s) - 1],
        ),
    decreases s.len(),
{
    if s.len() > 0 && is_whitespace_char(s.last()) {
        let rest = s.drop_last();
        lemma_trailing_whitespace(rest);
        assert forall|j: int|
            s.len() - trailing_whitespace(s) <= j < s.len() implies is_whitespace_char(
            #[trigger] s[j],
        ) by {
            if j < s.len() - 1 {
                assert(s[j] == rest[j]);
            }
        }
    }
}

/// Every text is its indentation, its trimmed text and a run of whitespace,
/// in this order; the trimmed text neither starts nor ends with whitespace.
pub proof fn lemma_trimmed_parts(s: Seq<char>)
    ensures
        indent_of(s).len() + trimmed(s).len() <= s.len(),
        s == indent_of(s) + trimmed(s) + s.skip((indent_of(s).len() + trimmed(s).len()) as int),
        forall|j: int| 0 <= j < indent_of(s).len() ==> is_whitespace_char(#[trigger] s[j]),
        forall|j: int|
            indent_of(s).len() + trimmed(s).len() <= j < s.len() ==> is_whitespace_char(
                #[trigger] s[j],
            ),
        trimmed(s).len() > 0 ==> !is_whitespace_char(trimmed(s)[0]) && !is_whitespace_char(
            trimmed(s).last(),
        ),
{
    lemma_leading_whitespace(s);
    let a = leading_whitespace(s) as int;
    let rest = s.skip(a);
    lemma_trailing_whitespace(rest);
    let b = rest.len() - trailing_whitespace(rest);
    assert forall|j: int| a + b <= j < s.len() implies is_whitespace_char(#[trigger] s[j]) by {
        assert(s[j] == rest[j - a]);
    }
}

/// A text that neither starts nor ends with whitespace, put between two
/// runs of whitespace: the first run is the indentation, and trimming gives
/// the text back.
pub proof fn lemma_padded(lead: Seq<char>, core: Seq<char>, trail: Seq<char>)
    requires
        forall|j: int| 0 <= j < lead.len() ==> is_whitespace_char(#[trigger] lead[j]),
        forall|j: int| 0 <= j < trail.len() ==> is_whitespace_char(#[trigger] trail[j]),
        core.len() > 0,
        !is_whitespace_char(core[0]),
        !is_whitespace_char(core.last()),
    ensures
        indent_of(lead + core + trail) == lead,
        trimmed(lead + core + trail) == core,
{
    let s = lead + core + trail;
    assert forall|j: int| 0 <= j < lead.len() implies is_whitespace_char(#[trigger] s[j]) by {}
    lemma_leading_whitespace_is(s, lead.len() as int);
    let rest = s.skip(lead.len() as int);
    assert forall|j: int| rest.len() - trail.len() <= j < rest.len() implies is_whitespace_char(
        #[trigger] rest[j],
    ) by {}
    lemma_trailing_whitespace_is(rest, trail.len() as int);
}

/// A text without whitespace at either end, put between two runs of
/// whitespace: trimming gives the text back, also where it is empty.
pub proof fn lemma_trimmed_between_whitespace(
    lead: Seq<char>,
    core: Seq<char>,
    trail: Seq<char>,
)
    requires
        forall|j: int| 0 <= j < lead.len() ==> is_whitespace_char(#[trigger] lead[j]),
        forall|j: int| 0 <= j < trail.len() ==> is_whitespace_char(#[trigger] trail[j]),
        trimmed(core) == core,
    ensures
        trimmed(lead + core + trail) == core,
{
    let s = lead + core + trail;
    if core.len() == 0 {
        assert forall|j: int| 0 <= j < s.len() implies is_whitespace_char(#[trigger] s[j]) by {}
        lemma_leading_whitespace_is(s, s.len() as int);
    } else {
        lemma_trimmed_parts(core);
        lemma_padded(lead, core, trail);
    }
}

/// Tells whether `c` is whitespace.
pub fn is_whitespace(c: char) -> (r: bool)
    ensures
        r == is_whitespace_char(c),
{
    let n: u32 = c as u32;
    (0x09 <= n && n <= 0x0D) || n == 0x20 || n == 0x85 || n == 0xA0 || n == 0x1680 || (0x2000 <= n
        && n <= 0x200A) || n == 0x2028 || n == 0x2029 || n == 0x202F || n == 0x205F || n == 0x3000
}

/// The characters of `s`, in order.
pub fn chars_of(s: &str) -> (v: Vec<char>)
    ensures
        v@ == s@,
{
    let mut v: Vec<char> = Vec::new();
    for c in it: s.chars()
        invariant
            v@ == it.seq().take(it.index() as int),
            it.seq() == s@,
    {
        v.push(c);
    }
    v
}

/// `String::push`: puts the one character `c` at the end of `s` and leaves
/// what `s` held before in place.
#[verifier::external_body]
fn push_char(s: &mut String, c: char)
    ensures
        final(s)@ == old(s)@.push(c),
{
    s.push(c);
}

/// The string that holds the characters of `v` from `from` up to `to`.
pub(crate) fn string_of_range(v: &Vec<char>, from: usize, to: usize) -> (s: String)
    requires
        from <= to <= v.len(),
    ensures
        s@ == v@.subrange(from as int, to as int),
{
    let mut s = String::new();
    let mut i: usize = from;
    while i < to
        invariant
            from <= i <= to <= v.len(),
            s@ == v@.subrange(from as int, i as int),
        decreases to - i,
    {
        push_char(&mut s, v[i]);
        i += 1;
    }
    s
}

/// The string that holds the characters of `v`.
pub fn string_of(v: &Vec<char>) -> (s: String)
    ensures
        s@ == v@,
{
    string_of_range(v, 0, v.len())
}

/// Where the text of `v` without the whitespace at either end starts and ends.
pub(crate) fn trim_bounds(v: &Vec<char>) -> (r: (usize, usize))
    ensures
        r.0 <= r.1 <= v.len(),
        r.0 == leading_whitespace(v@),
        v@.subrange(r.0 as int, r.1 as int) == trimmed(v@),
        v@.take(r.0 as int) == indent_of(v@),
{
    let mut start: usize = 0;
    while start < v.len() && is_whitespace(v[start])
        invariant
            start <= v.len(),
            forall|j: int| 0 <= j < start ==> is_whitespace_char(#[trigger] v@[j]),
        decreases v.len() - start,
    {
        start += 1;
    }
    proof {
        lemma_leading_whitespace_is(v@, start as int);
    }
    let mut end: usize = v.len();
    while end > start && is_whitespace(v[end - 1])
        invariant
            start <= end <= v.len(),
            forall|j: int| end <= j < v.len() ==> is_whitespace_char(#[trigger] v@[j]),
        decreases end - start,
    {
        end -= 1;
    }
    proof {
        let rest = v@.skip(start as int);
        assert forall|j: int|
            rest.len() - (v.len() - end) <= j < rest.len() implies is_whitespace_char(
            #[trigger] rest[j],
        ) by {}
        lemma_trailing_whitespace_is(rest, v.len() - end);
    }
    (start, end)
}

/// `s` without the whitespace at either end.
pub fn trim(s: &str) -> (r: String)
    ensures
        r@ == trimmed(s@),
{
    let v = chars_of(s);
    let (start, end) = trim_bounds(&v);
    string_of_range(&v, start, end)
}

/// The whitespace that `s` starts with.
pub fn leading_indent(s: &str) -> (r: String)
    ensures
        r@ == indent_of(s@),
{
    let v = chars_of(s);
    let (start, _end) = trim_bounds(&v);
    string_of_range(&v, 0, start)
}

} // verus!
