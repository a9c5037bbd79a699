//! Python strings of the runtime: splitting on whitespace, stripping, counting, truth.
use vstd::prelude::*;
use crate::runtime::list::TypedList;
use crate::runtime::truth::Truthy;
use crate::text::{chars_of, push_char, string_from};

verus! {

/// ASCII whitespace as `str::split_ascii_whitespace` knows it.
pub open spec fn is_ascii_ws(c: char) -> bool {
    c == ' ' || c == '\t' || c == '\n' || c == '\x0C' || c == '\r'
}

/// Unicode whitespace (the `White_Space` property) as `str::trim` knows it.
pub open spec fn is_unicode_ws(c: char) -> bool {
    ||| ('\t' <= c && c <= '\r')
    ||| c == ' '
    ||| c == '\u{85}'
    ||| c == '\u{A0}'
    ||| c == '\u{1680}'
    ||| ('\u{2000}' <= c && c <= '\u{200A}')
    ||| c == '\u{2028}'
    ||| c == '\u{2029}'
    ||| c == '\u{202F}'
    ||| c == '\u{205F}'
    ||| c == '\u{3000}'
}

/// The maximal runs of non-whitespace characters of `s`, in order.
pub open spec fn words(s: Seq<char>) -> Seq<Seq<char>>
    decreases s.len(),
{
    if s.len() == 0 {
        seq![]
    } else {
        let w = words(s.drop_last());
        let c = s.last();
        if is_ascii_ws(c) {
            w
        } else if s.len() >= 2 && !is_ascii_ws(s[s.len() - 2]) {
            w.update(w.len() - 1, w.last().push(c))
        } else {
            w.push(seq![c])
        }
    }
}

/// Number of leading whitespace characters of `s`.
pub open spec fn leading_ws(s: Seq<char>) -> nat
    decreases s.len(),
{
    if s.len() > 0 && is_unicode_ws(s[0]) {
        1 + leading_ws(s.drop_first())
    } else {
        0
    }
}

/// Number of trailing whitespace characters of `s`.
pub open spec fn trailing_ws(s: Seq<char>) -> nat
    decreases s.len(),
{
    if s.len() > 0 && is_unicode_ws(s.last()) {
        1 + trailing_ws(s.drop_last())
    } else {
        0
    }
}

/// `s` without its leading and trailing whitespace.
pub open spec fn trim(s: Seq<char>) -> Seq<char> {
    let t = s.skip(leading_ws(s) as int);
    t.take(t.len() - trailing_ws(t))
}

proof fn lemma_leading_ws(s: Seq<char>, i: int)
    requires
        0 <= i <= s.len(),
        forall|j: int| 0 <= j < i ==> is_unicode_ws(#[trigger] s[j]),
        i == s.len() || !is_unicode_ws(s[i]),
    ensures
        leading_ws(s) == i,
    decreases i,
{
    if i > 0 {
        lemma_leading_ws(s.drop_first(), i - 1);
    }
}

proof fn lemma_trailing_ws(s: Seq<char>, i: int)
    requires
        0 <= i <= s.len(),
        forall|j: int| s.len() - i <= j < s.len() ==> is_unicode_ws(#[trigger] s[j]),
        i == s.len() || !is_unicode_ws(s[s.len() - 1 - i]),
    ensures
        trailing_ws(s) == i,
    decreases i,
{
    if i > 0 {
        lemma_trailing_ws(s.drop_last(), i - 1);
    }
}

fn is_unicode_whitespace(c: char) -> (r: bool)
    ensures
        r == is_unicode_ws(c),
{
    ('\t' <= c && c <= '\r') || c == ' ' || c == '\u{85}' || c == '\u{A0}' || c == '\u{1680}'
        || ('\u{2000}' <= c && c <= '\u{200A}') || c == '\u{2028}' || c == '\u{2029}'
        || c == '\u{202F}' || c == '\u{205F}' || c == '\u{3000}'
}

/// `s` without its leading and trailing whitespace (`str::trim`).
pub fn trim_string(s: &str) -> (r: String)
    ensures
        r@ == trim(s@),
{
    let v = chars_of(s);
    let n = v.len();
    let mut start: usize = 0;
    while start < n && is_unicode_whitespace(v[start])
        invariant
            start <= n == v.len(),
            forall|j: int| 0 <= j < start ==> is_unicode_ws(#[trigger] v@[j]),
        decreases n - start,
    {
        start += 1;
    }
    proof {
        lemma_leading_ws(v@, start as int);
    }
    let mut end: usize = n;
    while end > start && is_unicode_whitespace(v[end - 1])
        invariant
            start <= end <= n == v.len(),
            forall|j: int| end <= j < n ==> is_unicode_ws(#[trigger] v@[j]),
        decreases end,
    {
        end -= 1;
    }
    proof {
        let t = v@.skip(start as int);
        assert forall|j: int| t.len() - (n - end) <= j < t.len() implies is_unicode_ws(#[trigger] t[j]) by {
            assert(t[j] == v@[j + start]);
        }
        if end > start {
            assert(t[t.len() - 1 - (n - end)] == v@[end - 1]);
        }
        lemma_trailing_ws(t, (n - end) as int);
        assert(t.take(t.len() - (n - end)) =~= v@.subrange(start as int, end as int));
    }
    string_from(&v, start, end)
}

/// The words of `s`, as split by `str::split_ascii_whitespace`.
pub fn split_words(s: &str) -> (r: Vec<String>)
    ensures
        r@.len() == words(s@).len(),
        forall|i: int| 0 <= i < r@.len() ==> (#[trigger] r@[i])@ == words(s@)[i],
{
    let v = chars_of(s);
    let n = v.len();
    let mut result: Vec<String> = Vec::new();
    let mut start: usize = 0;
    let mut in_word = false;
    let mut i: usize = 0;
    while i < n
        invariant
            i <= n == v.len(),
            v@ == s@,
            start <= i,
            in_word ==> start < i && !is_ascii_ws(v@[i - 1]) && (start == 0 || is_ascii_ws(v@[start - 1])),
            in_word ==> forall|j: int| start <= j < i ==> !is_ascii_ws(#[trigger] v@[j]),
            !in_word ==> (i == 0 || is_ascii_ws(v@[i - 1])),
            ({
                let w = words(v@.take(i as int));
                if in_word {
                    &&& w.len() == result@.len() + 1
                    &&& w.last() == v@.subrange(start as int, i as int)
                    &&& forall|j: int| 0 <= j < result@.len() ==> (#[trigger] result@[j])@ == w[j]
                } else {
                    &&& w.len() == result@.len()
                    &&& forall|j: int| 0 <= j < result@.len() ==> (#[trigger] result@[j])@ == w[j]
                }
            }),
        decreases n - i,
    {
        let c = v[i];
        let ws = c == ' ' || c == '\t' || c == '\n' || c == '\x0C' || c == '\r';
        proof {
            assert(v@.take(i + 1).drop_last() =~= v@.take(i as int));
            assert(v@.take(i + 1).last() == c);
            if i >= 1 {
                assert(v@.take(i + 1)[i - 1] == v@[i - 1]);
            }
        }
        if ws {
            if in_word {
                let w = string_from(&v, start, i);
                result.push(w);
                in_word = false;
            }
        } else {
            if !in_word {
                start = i;
                in_word = true;
                proof {
                    assert(v@.subrange(start as int, i + 1) =~= seq![c]);
                }
            } else {
                proof {
                    assert(v@.subrange(start as int, i + 1) =~= v@.subrange(start as int, i as int).push(c));
                }
            }
        }
        i += 1;
    }
    if in_word {
        let w = string_from(&v, start, n);
        result.push(w);
    }
    proof {
        assert(v@.take(n as int) =~= s@);
    }
    result
}

/// A string of the statically typed runtime.
#[derive(Debug, PartialEq, Eq)]
pub struct TypedString(pub String);

impl TypedString {
    /// The words of the string, split on ASCII whitespace.
    pub fn split(&self) -> (r: TypedList<TypedString>)
        ensures
            r@.len() == words(self.0@).len(),
            forall|i: int| 0 <= i < r@.len() ==> (#[trigger] r@[i]).0@ == words(self.0@)[i],
    {
        let parts = split_words(self.0.as_str());
        let mut list: Vec<TypedString> = Vec::new();
        let mut i: usize = 0;
        while i < parts.len()
            invariant
                i <= parts.len(),
                list.len() == i,
                forall|j: int| 0 <= j < i ==> (#[trigger] list@[j]).0@ == parts@[j]@,
            decreases parts.len() - i,
        {
            list.push(TypedString(parts[i].clone()));
            i += 1;
        }
        TypedList(list)
    }
}

impl Default for TypedString {
    fn default() -> (r: Self)
        ensures
            r.0@ == Seq::<char>::empty(),
    {
        TypedString(String::new())
    }
}

impl Truthy for TypedString {
    open spec fn truth(&self) -> bool {
        self.0@.len() > 0
    }

    fn test(&self) -> (r: bool) {
        !self.0.as_str().is_empty()
    }
}

/// The pattern `p` stands at position `i` of `s`.
pub open spec fn matches_at(s: Seq<char>, p: Seq<char>, i: int) -> bool {
    &&& 0 <= i
    &&& i + p.len() <= s.len()
    &&& s.subrange(i, i + p.len()) == p
}

/// The occurrences of the non-empty pattern `p` in `s` from position `i` on, taken from the
/// left and not overlapping, as `str::split` finds them.
pub open spec fn occurrences_from(s: Seq<char>, p: Seq<char>, i: int) -> nat
    decreases s.len() - i,
{
    if p.len() == 0 || i < 0 || i + p.len() > s.len() {
        0
    } else if matches_at(s, p, i) {
        1 + occurrences_from(s, p, i + p.len())
    } else {
        occurrences_from(s, p, i + 1)
    }
}

/// Python's `s.count(p)`: the occurrences of `p` in `s`, and one more than the characters
/// for an empty `p`.
pub open spec fn count_spec(s: Seq<char>, p: Seq<char>) -> nat {
    if p.len() == 0 {
        s.len() + 1
    } else {
        occurrences_from(s, p, 0)
    }
}

/// Whether `p` stands at position `i` of `s`.
fn match_at(s: &Vec<char>, p: &Vec<char>, i: usize) -> (r: bool)
    requires
        i + p.len() <= s.len(),
    ensures
        r == matches_at(s@, p@, i as int),
{
    let mut j: usize = 0;
    while j < p.len()
        invariant
            i + p.len() <= s.len(),
            j <= p.len(),
            forall|k: int| 0 <= k < j ==> s@[i + k] == p@[k],
        decreases p.len() - j,
    {
        if s[i + j] != p[j] {
            proof {
                assert(s@.subrange(i as int, i + p.len())[j as int] != p@[j as int]);
            }
            return false;
        }
        j += 1;
    }
    proof {
        assert(s@.subrange(i as int, i + p.len()) =~= p@);
    }
    true
}

/// A string of the dynamically typed runtime.
#[derive(Debug, PartialEq, Eq)]
pub struct ImmutableString(pub String);

impl ImmutableString {
    /// The words of the string, split on ASCII whitespace.
    pub fn split(&self) -> (r: Vec<ImmutableString>)
        ensures
            r@.len() == words(self.0@).len(),
            forall|i: int| 0 <= i < r@.len() ==> (#[trigger] r@[i]).0@ == words(self.0@)[i],
    {
        let parts = split_words(self.0.as_str());
        let mut list: Vec<ImmutableString> = Vec::new();
        let mut i: usize = 0;
        while i < parts.len()
            invariant
                i <= parts.len(),
                list.len() == i,
                forall|j: int| 0 <= j < i ==> (#[trigger] list@[j]).0@ == parts@[j]@,
            decreases parts.len() - i,
        {
            list.push(ImmutableString(parts[i].clone()));
            i += 1;
        }
        list
    }

    /// The string without leading and trailing whitespace.
    pub fn strip(&self) -> (r: ImmutableString)
        ensures
            r.0@ == trim(self.0@),
    {
        ImmutableString(trim_string(self.0.as_str()))
    }

    /// The string is not empty.
    pub fn test(&self) -> (r: bool)
        ensures
            r == (self.0@.len() > 0),
    {
        !self.0.as_str().is_empty()
    }

    /// The occurrences of `value` in the string (`str.count`).
    pub fn count(&self, value: &ImmutableString) -> (r: i64)
        requires
            self.0@.len() < i64::MAX,
        ensures
            r == count_spec(self.0@, value.0@),
    {
        let s = chars_of(self.0.as_str());
        let p = chars_of(value.0.as_str());
        if p.len() == 0 {
            return (s.len() as i64) + 1;
        }
        let mut i: usize = 0;
        let mut n: usize = 0;
        while p.len() <= s.len() - i
            invariant
                s@ == self.0@,
                p@ == value.0@,
                p.len() > 0,
                i <= s.len(),
                n <= i,
                n + occurrences_from(s@, p@, i as int) == occurrences_from(s@, p@, 0),
            decreases s.len() - i,
        {
            if match_at(&s, &p, i) {
                n += 1;
                i += p.len();
            } else {
                i += 1;
            }
        }
        n as i64
    }
}

impl Truthy for ImmutableString {
    open spec fn truth(&self) -> bool {
        self.0@.len() > 0
    }

    fn test(&self) -> (r: bool) {
        !self.0.as_str().is_empty()
    }
}

/// The string that the runtime's `input()` gives for the line `line` read from standard
/// input: the line without its surrounding whitespace.  Reading the line is the caller's part.
pub fn input(line: &str) -> (r: ImmutableString)
    ensures
        r.0@ == trim(line@),
{
    ImmutableString(trim_string(line))
}


proof fn lemma_leading_props(s: Seq<char>)
    ensures
        leading_ws(s) <= s.len(),
        forall|k: int| 0 <= k < leading_ws(s) ==> is_unicode_ws(#[trigger] s[k]),
        leading_ws(s) < s.len() ==> !is_unicode_ws(s[leading_ws(s) as int]),
    decreases s.len(),
{
    if s.len() > 0 && is_unicode_ws(s[0]) {
        let d = s.drop_first();
        lemma_leading_props(d);
        assert forall|k: int| 0 <= k < leading_ws(s) implies is_unicode_ws(#[trigger] s[k]) by {
            if k > 0 {
                assert(s[k] == d[k - 1]);
            }
        }
        if leading_ws(s) < s.len() {
            assert(s[leading_ws(s) as int] == d[leading_ws(d) as int]);
        }
    }
}

proof fn lemma_trailing_props(s: Seq<char>)
    ensures
        trailing_ws(s) <= s.len(),
        forall|k: int| s.len() - trailing_ws(s) <= k < s.len() ==> is_unicode_ws(#[trigger] s[k]),
        trailing_ws(s) < s.len() ==> !is_unicode_ws(s[s.len() - 1 - trailing_ws(s)]),
    decreases s.len(),
{
    if s.len() > 0 && is_unicode_ws(s.last()) {
        let d = s.drop_last();
        lemma_trailing_props(d);
        assert forall|k: int| s.len() - trailing_ws(s) <= k < s.len() implies is_unicode_ws(#[trigger] s[k]) by {
            if k < s.len() - 1 {
                assert(s[k] == d[k]);
            }
        }
        if trailing_ws(s) < s.len() {
            assert(s[s.len() - 1 - trailing_ws(s)] == d[d.len() - 1 - trailing_ws(d)]);
        }
    }
}

/// Trimming takes off whitespace at both ends and nothing else: the result is a piece of
/// the text, everything before and after it is whitespace, and it neither begins nor ends
/// with whitespace.
pub proof fn law_trim_strips_both_ends(s: Seq<char>)
    ensures
        exists|i: int, j: int| {
            &&& 0 <= i <= j <= s.len()
            &&& trim(s) == s.subrange(i, j)
            &&& forall|k: int| 0 <= k < i ==> is_unicode_ws(#[trigger] s[k])
            &&& forall|k: int| j <= k < s.len() ==> is_unicode_ws(#[trigger] s[k])
        },
        trim(s).len() > 0 ==> !is_unicode_ws(trim(s)[0]) && !is_unicode_ws(trim(s).last()),
{
    lemma_leading_props(s);
    let i = leading_ws(s) as int;
    let t = s.skip(i);
    lemma_trailing_props(t);
    let m = trailing_ws(t) as int;
    let j = s.len() - m;
    assert(trim(s) =~= s.subrange(i, j));
    assert forall|k: int| j <= k < s.len() implies is_unicode_ws(#[trigger] s[k]) by {
        assert(s[k] == t[k - i]);
    }
    if trim(s).len() > 0 {
        assert(trim(s)[0] == s[i]);
        assert(trim(s).last() == t[t.len() - 1 - m]);
    }
}

/// The words of a text are non-empty and hold no ASCII whitespace.
pub proof fn law_words_hold_no_whitespace(s: Seq<char>)
    ensures
        forall|i: int| 0 <= i < words(s).len() ==> (#[trigger] words(s)[i]).len() > 0,
        forall|i: int, k: int| 0 <= i < words(s).len() && 0 <= k < words(s)[i].len() ==> !is_ascii_ws(#[trigger] words(s)[i][k]),
    decreases s.len(),
{
    if s.len() > 0 {
        law_words_hold_no_whitespace(s.drop_last());
        let w = words(s.drop_last());
        let c = s.last();
        if !is_ascii_ws(c) && s.len() >= 2 && !is_ascii_ws(s[s.len() - 2]) {
            assert(w.len() > 0) by {
                lemma_words_end(s.drop_last());
            }
            let r = w.update(w.len() - 1, w.last().push(c));
            assert forall|i: int, k: int| 0 <= i < r.len() && 0 <= k < r[i].len() implies !is_ascii_ws(#[trigger] r[i][k]) by {
                if i == w.len() - 1 && k == w.last().len() {
                } else if i == w.len() - 1 {
                    assert(r[i][k] == w[i][k]);
                }
            }
        }
    }
}

/// A text that ends in a character other than whitespace has at least one word.
proof fn lemma_words_end(s: Seq<char>)
    requires
        s.len() > 0,
        !is_ascii_ws(s.last()),
    ensures
        words(s).len() > 0,
    decreases s.len(),
{
    if s.len() >= 2 && !is_ascii_ws(s[s.len() - 2]) {
        lemma_words_end(s.drop_last());
    }
}

} // verus!
