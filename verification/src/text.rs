//! Character-level text operations shared by the `.env` store, the
//! response walk and the label formatting: trimming, splitting, line
//! breaking and integer reading, each against a specification over
//! `Seq<char>`.

use vstd::prelude::*;

verus! {

/// Appends one character to a `String` (`String::push`).
#[verifier::external_body]
pub(crate) fn string_push(s: &mut String, c: char)
    ensures
        final(s)@ == old(s)@.push(c),
{
    s.push(c);
}

/// The characters of `s`, in order.
pub fn chars_of(s: &str) -> (v: Vec<char>)
    ensures
        v@ == s@,
{
    let mut v: Vec<char> = Vec::new();
    for c in it: s.chars()
        invariant
            v@ == it.seq().take(it.index() as int),
            it.seq() == s@,
    {
        v.push(c);
    }
    v
}

/// A `String` holding the characters of `v`.
pub fn string_from_chars(v: &[char]) -> (s: String)
    ensures
        s@ == v@,
{
    let mut s = String::new();
    for i in 0..v.len()
        invariant
            s@ == v@.take(i as int),
    {
        string_push(&mut s, v[i]);
        assert(v@.take(i + 1) == v@.take(i as int).push(v@[i as int]));
    }
    assert(v@.take(v@.len() as int) == v@);
    s
}

/// A copy of `v[start..end]`.
pub fn copy_range(v: &[char], start: usize, end: usize) -> (r: Vec<char>)
    requires
        start <= end <= v@.len(),
    ensures
        r@ == v@.subrange(start as int, end as int),
{
    let mut r: Vec<char> = Vec::new();
    let mut i = start;
    while i < end
        invariant
            start <= i <= end <= v@.len(),
            r@ == v@.subrange(start as int, i as int),
        decreases end - i,
    {
        r.push(v[i]);
        i = i + 1;
        assert(r@ =~= v@.subrange(start as int, i as int));
    }
    r
}

/// Whether `a` and `b` hold the same characters.
pub fn chars_eq(a: &[char], b: &[char]) -> (r: bool)
    ensures
        r == (a@ == b@),
{
    if a.len() != b.len() {
        return false;
    }
    for i in 0..a.len()
        invariant
            a@.len() == b@.len(),
            forall|j: int| 0 <= j < i ==> a@[j] == b@[j],
    {
        if a[i] != b[i] {
            return false;
        }
    }
    assert(a@ =~= b@);
    true
}

/// Whether `a` and `b` are the same text.
pub fn str_eq(a: &str, b: &str) -> (r: bool)
    ensures
        r == (a@ == b@),
{
    let x = chars_of(a);
    let y = chars_of(b);
    chars_eq(&x, &y)
}

// ---------------------------------------------------------------------
// Whitespace and trimming
// ---------------------------------------------------------------------

/// Unicode `White_Space`, the property behind `char::is_whitespace`.
pub open spec fn is_white_space(c: char) -> bool {
    ||| '\u{9}' <= c && c <= '\u{d}'
    ||| c == ' '
    ||| c == '\u{85}'
    ||| c == '\u{a0}'
    ||| c == '\u{1680}'
    ||| '\u{2000}' <= c && c <= '\u{200a}'
    ||| c == '\u{2028}'
    ||| c == '\u{2029}'
    ||| c == '\u{202f}'
    ||| c == '\u{205f}'
    ||| c == '\u{3000}'
}

/// Whether `c` is Unicode whitespace (`char::is_whitespace`).
pub fn is_whitespace(c: char) -> (b: bool)
    ensures
        b == is_white_space(c),
{
    ('\u{9}' <= c && c <= '\u{d}') || c == ' ' || c == '\u{85}' || c == '\u{a0}' || c
        == '\u{1680}' || ('\u{2000}' <= c && c <= '\u{200a}') || c == '\u{2028}' || c
        == '\u{2029}' || c == '\u{202f}' || c == '\u{205f}' || c == '\u{3000}'
}

/// `s` without its leading whitespace (`str::trim_start`).
pub open spec fn trim_start_spec(s: Seq<char>) -> Seq<char>
    decreases s.len(),
{
    if s.len() > 0 && is_white_space(s[0]) {
        trim_start_spec(s.drop_first())
    } else {
        s
    }
}

/// `s` without its trailing whitespace (`str::trim_end`).
pub open spec fn trim_end_spec(s: Seq<char>) -> Seq<char>
    decreases s.len(),
{
    if s.len() > 0 && is_white_space(s.last()) {
        trim_end_spec(s.drop_last())
    } else {
        s
    }
}

/// `s` without leading and trailing whitespace (`str::trim`).
pub open spec fn trim_spec(s: Seq<char>) -> Seq<char> {
    trim_end_spec(trim_start_spec(s))
}

/// Skipping a run of leading whitespace that ends at `i` gives `trim_start_spec`.
pub proof fn lemma_trim_start_at(s: Seq<char>, i: int)
    requires
        0 <= i <= s.len(),
        forall|j: int| 0 <= j < i ==> is_white_space(#[trigger] s[j]),
        i == s.len() || !is_white_space(s[i]),
    ensures
        trim_start_spec(s) == s.skip(i),
    decreases i,
{
    if i == 0 {
        assert(s.skip(0) == s);
    } else {
        let t = s.drop_first();
        assert forall|j: int| 0 <= j < i - 1 implies is_white_space(#[trigger] t[j]) by {
            assert(t[j] == s[j + 1]);
        }
        if i - 1 < t.len() {
            assert(t[i - 1] == s[i]);
        }
        lemma_trim_start_at(t, i - 1);
        assert(t.skip(i - 1) == s.skip(i));
    }
}

/// Dropping a run of trailing whitespace that starts at `i` gives `trim_end_spec`.
pub proof fn lemma_trim_end_at(s: Seq<char>, i: int)
    requires
        0 <= i <= s.len(),
        forall|j: int| i <= j < s.len() ==> is_white_space(#[trigger] s[j]),
        i == 0 || !is_white_space(s[i - 1]),
    ensures
        trim_end_spec(s) == s.take(i),
    decreases s.len() - i,
{
    if i == s.len() {
        assert(s.take(i) == s);
    } else {
        let t = s.drop_last();
        assert forall|j: int| i <= j < t.len() implies is_white_space(#[trigger] t[j]) by {
            assert(t[j] == s[j]);
        }
        if i > 0 {
            assert(t[i - 1] == s[i - 1]);
        }
        assert(is_white_space(s[s.len() - 1]));
        lemma_trim_end_at(t, i);
        assert(t.take(i) == s.take(i));
    }
}

proof fn lemma_trim_start_shape(s: Seq<char>)
    ensures
        trim_start_spec(s).len() > 0 ==> !is_white_space(trim_start_spec(s)[0]),
    decreases s.len(),
{
    if s.len() > 0 && is_white_space(s[0]) {
        lemma_trim_start_shape(s.drop_first());
    }
}

pub(crate) proof fn lemma_trim_end_shape(s: Seq<char>) -> (k: int)
    ensures
        0 <= k <= s.len(),
        trim_end_spec(s) == s.take(k),
        k > 0 ==> !is_white_space(s[k - 1]),
    decreases s.len(),
{
    if s.len() > 0 && is_white_space(s.last()) {
        let k = lemma_trim_end_shape(s.drop_last());
        assert(s.drop_last().take(k) == s.take(k));
        if k > 0 {
            assert(s.drop_last()[k - 1] == s[k - 1]);
        }
        k
    } else {
        assert(s.take(s.len() as int) == s);
        s.len() as int
    }
}

/// Trimming twice trims once.
pub proof fn lemma_trim_idempotent(s: Seq<char>)
    ensures
        trim_spec(trim_spec(s)) == trim_spec(s),
{
    let a = trim_start_spec(s);
    lemma_trim_start_shape(s);
    let k = lemma_trim_end_shape(a);
    let t = trim_spec(s);
    if t.len() > 0 {
        assert(t[0] == a[0]);
        lemma_trim_start_at(t, 0);
        assert(t.skip(0) == t);
        assert(t[t.len() - 1] == a[k - 1]);
        lemma_trim_end_at(t, t.len() as int);
        assert(t.take(t.len() as int) == t);
    } else {
        assert(trim_start_spec(t) == t);
        assert(trim_end_spec(t) == t);
    }
}

/// `s` without its leading whitespace.
pub fn trim_start(s: &[char]) -> (r: Vec<char>)
    ensures
        r@ == trim_start_spec(s@),
{
    let mut i: usize = 0;
    while i < s.len() && is_whitespace(s[i])
        invariant
            i <= s@.len(),
            forall|j: int| 0 <= j < i ==> is_white_space(#[trigger] s@[j]),
        decreases s.len() - i,
    {
        i = i + 1;
    }
    proof {
        lemma_trim_start_at(s@, i as int);
    }
    copy_range(s, i, s.len())
}

/// `s` without leading and trailing whitespace.
pub fn trim(s: &[char]) -> (r: Vec<char>)
    ensures
        r@ == trim_spec(s@),
{
    let t = trim_start(s);
    let mut i: usize = t.len();
    while i > 0 && is_whitespace(t[i - 1])
        invariant
            i <= t@.len(),
            forall|j: int| i <= j < t@.len() ==> is_white_space(#[trigger] t@[j]),
        decreases i,
    {
        i = i - 1;
    }
    proof {
        lemma_trim_end_at(t@, i as int);
        assert(t@.take(i as int) == t@.subrange(0, i as int));
    }
    copy_range(&t, 0, i)
}

// ---------------------------------------------------------------------
// Searching and splitting
// ---------------------------------------------------------------------

/// The index of the first `c` in `s`.
pub open spec fn find_spec(s: Seq<char>, c: char) -> Option<int>
    decreases s.len(),
{
    if s.len() == 0 {
        None
    } else if s[0] == c {
        Some(0)
    } else {
        match find_spec(s.drop_first(), c) {
            Some(i) => Some(i + 1),
            None => None,
        }
    }
}

/// `find_spec` gives the first occurrence, and `None` exactly when there is none.
pub proof fn lemma_find(s: Seq<char>, c: char)
    ensures
        find_spec(s, c) matches Some(i) ==> 0 <= i < s.len() && s[i] == c && forall|j: int|
            0 <= j < i ==> s[j] != c,
        find_spec(s, c) is None ==> forall|j: int| 0 <= j < s.len() ==> s[j] != c,
    decreases s.len(),
{
    if s.len() > 0 && s[0] != c {
        lemma_find(s.drop_first(), c);
        assert forall|j: int| 1 <= j < s.len() implies s[j] == s.drop_first()[j - 1] by {}
    }
}

/// An index that is the first occurrence of `c` is what `find_spec` gives.
pub proof fn lemma_find_at(s: Seq<char>, c: char, i: int)
    requires
        0 <= i <= s.len(),
        forall|j: int| 0 <= j < i ==> s[j] != c,
        i == s.len() || s[i] == c,
    ensures
        find_spec(s, c) == (if i == s.len() {
            None::<int>
        } else {
            Some(i)
        }),
{
    lemma_find(s, c);
}

/// The index of the first `c` in `s`.
pub fn find_char(s: &[char], c: char) -> (r: Option<usize>)
    ensures
        r matches Some(i) ==> find_spec(s@, c) == Some(i as int),
        r is None ==> find_spec(s@, c) is None,
{
    let mut i: usize = 0;
    while i < s.len()
        invariant
            i <= s@.len(),
            forall|j: int| 0 <= j < i ==> s@[j] != c,
        decreases s.len() - i,
    {
        if s[i] == c {
            proof {
                lemma_find_at(s@, c, i as int);
            }
            return Some(i);
        }
        i = i + 1;
    }
    proof {
        lemma_find_at(s@, c, i as int);
    }
    None
}

/// `s` split around its first `c` (`str::split_once`).
pub open spec fn split_once_spec(s: Seq<char>, c: char) -> Option<(Seq<char>, Seq<char>)> {
    match find_spec(s, c) {
        Some(i) => Some((s.take(i), s.skip(i + 1))),
        None => None,
    }
}

/// `s` split around its first `c`.
pub fn split_once(s: &[char], c: char) -> (r: Option<(Vec<char>, Vec<char>)>)
    ensures
        r matches Some(p) ==> split_once_spec(s@, c) == Some((p.0@, p.1@)),
        r is None ==> split_once_spec(s@, c) is None,
{
    match find_char(s, c) {
        Some(i) => {
            proof {
                lemma_find(s@, c);
            }
            assert(i < s.len());
            let a = copy_range(s, 0, i);
            let b = copy_range(s, i + 1, s.len());
            assert(a@ == s@.take(i as int));
            assert(b@ == s@.skip(i + 1));
            Some((a, b))
        },
        None => None,
    }
}

/// Whether `c` occurs in `s`.
pub fn contains_char(s: &[char], c: char) -> (b: bool)
    ensures
        b == s@.contains(c),
{
    let r = find_char(s, c);
    proof {
        lemma_find(s@, c);
        if r is Some {
            assert(s@[find_spec(s@, c)->0] == c);
        }
    }
    r.is_some()
}

// ---------------------------------------------------------------------
// Lines
// ---------------------------------------------------------------------

/// `l` without one trailing carriage return.
pub open spec fn strip_cr(l: Seq<char>) -> Seq<char> {
    if l.len() > 0 && l.last() == '\r' {
        l.drop_last()
    } else {
        l
    }
}

/// The lines of `s` (`str::lines`): split after each `'\n'`, the line
/// feed and one carriage return before it removed, no empty last line.
pub open spec fn lines_spec(s: Seq<char>) -> Seq<Seq<char>>
    decreases s.len(),
{
    if s.len() == 0 {
        Seq::empty()
    } else {
        match find_spec(s, '\n') {
            Some(i) => {
                proof {
                    lemma_find(s, '\n');
                }
                seq![strip_cr(s.take(i))] + lines_spec(s.skip(i + 1))
            },
            None => seq![s],
        }
    }
}

/// The lines of `s`, as `str::lines` gives them.
pub fn lines(s: &[char]) -> (r: Vec<Vec<char>>)
    ensures
        r@.map_values(|l: Vec<char>| l@) == lines_spec(s@),
{
    let mut r: Vec<Vec<char>> = Vec::new();
    let mut start: usize = 0;
    assert(s@.skip(0) == s@);
    assert(r@.map_values(|l: Vec<char>| l@) == Seq::<Seq<char>>::empty());
    while start < s.len()
        invariant
            start <= s@.len(),
            r@.map_values(|l: Vec<char>| l@) + lines_spec(s@.skip(start as int)) == lines_spec(
                s@,
            ),
        decreases s.len() - start,
    {
        let ghost rest = s@.skip(start as int);
        let mut i = start;
        while i < s.len() && s[i] != '\n'
            invariant
                start <= i <= s@.len(),
                rest == s@.skip(start as int),
                forall|j: int| start <= j < i ==> s@[j] != '\n',
            decreases s.len() - i,
        {
            i = i + 1;
        }
        proof {
            assert forall|j: int| 0 <= j < i - start implies rest[j] != '\n' by {
                assert(rest[j] == s@[start + j]);
            }
            if i < s.len() {
                assert(rest[i - start] == s@[i as int]);
            }
            lemma_find_at(rest, '\n', i - start);
        }
        let mut end = i;
        if i < s.len() && end > start && s[end - 1] == '\r' {
            end = end - 1;
        }
        let line = copy_range(s, start, end);
        proof {
            if i < s.len() {
                assert(rest.take(i - start) == s@.subrange(start as int, i as int));
                assert(line@ == strip_cr(rest.take(i - start)));
                assert(rest.skip(i - start + 1) == s@.skip(i + 1));
                assert(lines_spec(rest) == seq![line@] + lines_spec(s@.skip(i + 1)));
            } else {
                assert(line@ == rest);
                assert(lines_spec(rest) == seq![line@]);
                assert(s@.skip(s@.len() as int) == Seq::<char>::empty());
            }
        }
        r.push(line);
        let ghost old_start = start;
        start = if i < s.len() {
            i + 1
        } else {
            i
        };
        proof {
            let rv = r@.map_values(|l: Vec<char>| l@);
            assert(rv == r@.drop_last().map_values(|l: Vec<char>| l@).push(line@));
            if i == s.len() {
                assert(lines_spec(s@.skip(start as int)) == Seq::<Seq<char>>::empty());
            }
            assert(rv + lines_spec(s@.skip(start as int)) == lines_spec(s@));
        }
    }
    proof {
        assert(s@.skip(start as int) == Seq::<char>::empty());
        assert(lines_spec(s@.skip(start as int)) == Seq::<Seq<char>>::empty());
    }
    r
}

/// The lines `ls` joined with `'\n'` between them (`[String]::join("\n")`).
pub open spec fn join_lines(ls: Seq<Seq<char>>) -> Seq<char>
    decreases ls.len(),
{
    if ls.len() == 0 {
        Seq::empty()
    } else if ls.len() == 1 {
        ls[0]
    } else {
        ls[0] + seq!['\n'] + join_lines(ls.drop_first())
    }
}

/// Joining one more line adds a separator and the line.
pub proof fn lemma_join_push(ls: Seq<Seq<char>>, l: Seq<char>)
    ensures
        join_lines(ls.push(l)) == if ls.len() == 0 {
            l
        } else {
            join_lines(ls) + seq!['\n'] + l
        },
    decreases ls.len(),
{
    if ls.len() == 0 {
        assert(ls.push(l).len() == 1);
        assert(ls.push(l)[0] == l);
    } else if ls.len() == 1 {
        assert(ls.push(l).drop_first() == seq![l]);
        assert(join_lines(seq![l]) == l);
        assert(ls.push(l)[0] == ls[0]);
        assert(join_lines(ls) == ls[0]);
    } else {
        lemma_join_push(ls.drop_first(), l);
        assert(ls.push(l).drop_first() == ls.drop_first().push(l));
        assert(ls.push(l)[0] == ls[0]);
    }
}

/// Re-reading the lines of a body made of `ls`, each ended by `'\n'`,
/// gives back `ls`, a carriage return at the end of a line removed.
pub proof fn lemma_lines_of_joined(ls: Seq<Seq<char>>)
    requires
        ls.len() > 0,
        forall|i: int| 0 <= i < ls.len() ==> !(#[trigger] ls[i]).contains('\n'),
    ensures
        lines_spec(join_lines(ls) + seq!['\n']) == ls.map_values(|l: Seq<char>| strip_cr(l)),
    decreases ls.len(),
{
    let body = join_lines(ls) + seq!['\n'];
    let first = ls[0];
    let rest_body = if ls.len() == 1 {
        Seq::<char>::empty()
    } else {
        join_lines(ls.drop_first()) + seq!['\n']
    };
    assert(body == first + seq!['\n'] + rest_body);
    assert forall|j: int| 0 <= j < first.len() implies body[j] != '\n' by {
        assert(body[j] == first[j]);
        if first[j] == '\n' {
            assert(first.contains('\n'));
        }
    }
    assert(body[first.len() as int] == '\n');
    lemma_find_at(body, '\n', first.len() as int);
    assert(body.take(first.len() as int) == first);
    assert(body.skip(first.len() as int + 1) == rest_body);
    if ls.len() == 1 {
        assert(lines_spec(rest_body) == Seq::<Seq<char>>::empty());
        assert(ls.map_values(|l: Seq<char>| strip_cr(l)) == seq![strip_cr(first)]);
    } else {
        let t = ls.drop_first();
        assert forall|i: int| 0 <= i < t.len() implies !(#[trigger] t[i]).contains('\n') by {
            assert(t[i] == ls[i + 1]);
        }
        lemma_lines_of_joined(t);
        assert(ls.map_values(|l: Seq<char>| strip_cr(l)) == seq![strip_cr(first)]
            + t.map_values(|l: Seq<char>| strip_cr(l)));
    }
}

// ---------------------------------------------------------------------
// Words
// ---------------------------------------------------------------------

/// The words of `s` found so far, and the word being read at its end.
pub open spec fn words_fold(s: Seq<char>) -> (Seq<Seq<char>>, Seq<char>)
    decreases s.len(),
{
    if s.len() == 0 {
        (Seq::empty(), Seq::empty())
    } else {
        let (ws, cur) = words_fold(s.drop_last());
        let c = s.last();
        if is_white_space(c) {
            if cur.len() > 0 {
                (ws.push(cur), Seq::empty())
            } else {
                (ws, Seq::empty())
            }
        } else {
            (ws, cur.push(c))
        }
    }
}

/// The words of `s`: its maximal runs of non-whitespace characters, in
/// order (`str::split_whitespace`).
pub open spec fn words_spec(s: Seq<char>) -> Seq<Seq<char>> {
    let (ws, cur) = words_fold(s);
    if cur.len() > 0 {
        ws.push(cur)
    } else {
        ws
    }
}

/// The words of `s`.
pub fn split_whitespace(s: &[char]) -> (r: Vec<Vec<char>>)
    ensures
        r@.map_values(|w: Vec<char>| w@) == words_spec(s@),
{
    let mut words: Vec<Vec<char>> = Vec::new();
    let mut cur: Vec<char> = Vec::new();
    for i in 0..s.len()
        invariant
            (words@.map_values(|w: Vec<char>| w@), cur@) == words_fold(s@.take(i as int)),
    {
        let c = s[i];
        proof {
            assert(s@.take(i + 1).drop_last() == s@.take(i as int));
            assert(s@.take(i + 1).last() == c);
        }
        let ghost before = words@.map_values(|w: Vec<char>| w@);
        if is_whitespace(c) {
            if cur.len() > 0 {
                let ghost cv = cur@;
                words.push(cur);
                cur = Vec::new();
                assert(words@.map_values(|w: Vec<char>| w@) =~= before.push(cv));
            } else {
                cur = Vec::new();
            }
        } else {
            cur.push(c);
        }
    }
    proof {
        assert(s@.take(s@.len() as int) == s@);
    }
    if cur.len() > 0 {
        let ghost before = words@.map_values(|w: Vec<char>| w@);
        let ghost cv = cur@;
        words.push(cur);
        assert(words@.map_values(|w: Vec<char>| w@) =~= before.push(cv));
    }
    words
}

// ---------------------------------------------------------------------
// Integers
// ---------------------------------------------------------------------

/// An ASCII decimal digit.
pub open spec fn is_digit(c: char) -> bool {
    '0' <= c && c <= '9'
}

/// The value of an ASCII digit.
pub open spec fn digit_value(c: char) -> int {
    c as int - '0' as int
}

/// The value of a string of decimal digits.
pub open spec fn digits_value(s: Seq<char>) -> int
    decreases s.len(),
{
    if s.len() == 0 {
        0
    } else {
        digits_value(s.drop_last()) * 10 + digit_value(s.last())
    }
}

/// Every character of `s` is a decimal digit.
pub open spec fn all_digits(s: Seq<char>) -> bool {
    forall|i: int| 0 <= i < s.len() ==> is_digit(#[trigger] s[i])
}

/// The integer that `s` spells as Rust's `FromStr` for integers reads it:
/// an optional `+` (or `-` where `signed`), then one or more decimal digits,
/// before any range check.
pub open spec fn integer_spec(s: Seq<char>, signed: bool) -> Option<int> {
    if s.len() == 0 {
        None
    } else {
        let neg = signed && s[0] == '-';
        let body = if s[0] == '+' || neg {
            s.drop_first()
        } else {
            s
        };
        if body.len() > 0 && all_digits(body) {
            Some(
                if neg {
                    -digits_value(body)
                } else {
                    digits_value(body)
                },
            )
        } else {
            None
        }
    }
}

/// `s` read as an `i64` (`str::parse::<i64>`).
pub open spec fn parse_i64_spec(s: Seq<char>) -> Option<i64> {
    match integer_spec(s, true) {
        Some(v) => if i64::MIN <= v <= i64::MAX {
            Some(v as i64)
        } else {
            None
        },
        None => None,
    }
}

/// `s` read as a `u64` (`str::parse::<u64>`).
pub open spec fn parse_u64_spec(s: Seq<char>) -> Option<u64> {
    match integer_spec(s, false) {
        Some(v) => if 0 <= v <= u64::MAX {
            Some(v as u64)
        } else {
            None
        },
        None => None,
    }
}

/// `s` read as an `i32` (`str::parse::<i32>`).
pub open spec fn parse_i32_spec(s: Seq<char>) -> Option<i32> {
    match integer_spec(s, true) {
        Some(v) => if i32::MIN <= v <= i32::MAX {
            Some(v as i32)
        } else {
            None
        },
        None => None,
    }
}

/// A bound above every magnitude that the integer readers accept.
pub open spec fn magnitude_cap() -> int {
    0x1_0000_0000_0000_0000
}

proof fn lemma_digits_value_nonneg(s: Seq<char>)
    requires
        all_digits(s),
    ensures
        digits_value(s) >= 0,
    decreases s.len(),
{
    if s.len() > 0 {
        lemma_digits_value_nonneg(s.drop_last());
    }
}

/// The digits of `s[start..]`: `None` unless they are one or more decimal
/// digits; their value where it is at most the cap, a number above the cap
/// otherwise.
fn read_magnitude(s: &[char], start: usize) -> (r: Option<u128>)
    requires
        start <= s@.len(),
    ensures
        r is Some <==> (s@.skip(start as int).len() > 0 && all_digits(s@.skip(start as int))),
        r matches Some(m) ==> {
            &&& digits_value(s@.skip(start as int)) <= magnitude_cap() ==> m == digits_value(
                s@.skip(start as int),
            )
            &&& digits_value(s@.skip(start as int)) > magnitude_cap() ==> m > magnitude_cap()
        },
{
    if start == s.len() {
        return None;
    }
    let cap: u128 = 0x1_0000_0000_0000_0000;
    let mut acc: u128 = 0;
    let mut i = start;
    while i < s.len()
        invariant
            start <= i <= s@.len(),
            cap == magnitude_cap(),
            all_digits(s@.subrange(start as int, i as int)),
            digits_value(s@.subrange(start as int, i as int)) <= cap ==> acc == digits_value(
                s@.subrange(start as int, i as int),
            ),
            digits_value(s@.subrange(start as int, i as int)) > cap ==> acc > cap,
            acc <= cap * 10 + 9,
        decreases s.len() - i,
    {
        let c = s[i];
        if !('0' <= c && c <= '9') {
            proof {
                assert(s@.skip(start as int)[i - start] == c);
            }
            return None;
        }
        let ghost pre = s@.subrange(start as int, i as int);
        let ghost next = s@.subrange(start as int, i + 1);
        proof {
            assert(next.drop_last() == pre);
            assert(next.last() == c);
            lemma_digits_value_nonneg(pre);
        }
        let d = (c as u32 - '0' as u32) as u128;
        proof {
            assert(digits_value(next) == digits_value(pre) * 10 + d);
            assert(digits_value(pre) > cap ==> digits_value(pre) * 10 + d > cap) by (
            nonlinear_arith)
                requires
                    d >= 0,
            ;
        }
        if acc <= cap {
            assert(acc * 10 + d <= cap * 10 + 9) by (nonlinear_arith)
                requires
                    acc <= cap,
                    d <= 9,
            ;
            acc = acc * 10 + d;
        }
        i = i + 1;
        proof {
            assert forall|j: int| 0 <= j < next.len() implies is_digit(#[trigger] next[j]) by {
                if j < pre.len() {
                    assert(next[j] == pre[j]);
                }
            }
        }
    }
    assert(s@.subrange(start as int, s@.len() as int) == s@.skip(start as int));
    Some(acc)
}

/// `s` read as an `i64`.
pub fn parse_i64(s: &[char]) -> (r: Option<i64>)
    ensures
        r == parse_i64_spec(s@),
{
    if s.len() == 0 {
        return None;
    }
    let neg = s[0] == '-';
    let start: usize = if s[0] == '+' || neg {
        1
    } else {
        0
    };
    assert(s@.skip(start as int) == (if s@[0] == '+' || neg {
        s@.drop_first()
    } else {
        s@
    }));
    match read_magnitude(s, start) {
        None => None,
        Some(m) => {
            if neg {
                if m <= 0x8000_0000_0000_0000 {
                    Some((0 - (m as i128)) as i64)
                } else {
                    None
                }
            } else if m <= 0x7fff_ffff_ffff_ffff {
                Some(m as i64)
            } else {
                None
            }
        },
    }
}

/// `s` read as a `u64`.
pub fn parse_u64(s: &[char]) -> (r: Option<u64>)
    ensures
        r == parse_u64_spec(s@),
{
    if s.len() == 0 {
        return None;
    }
    let start: usize = if s[0] == '+' {
        1
    } else {
        0
    };
    assert(s@.skip(start as int) == (if s@[0] == '+' {
        s@.drop_first()
    } else {
        s@
    }));
    match read_magnitude(s, start) {
        None => None,
        Some(m) => {
            proof {
                if m <= 0xffff_ffff_ffff_ffff {
                    assert(digits_value(s@.skip(start as int)) == m);
                }
            }
            if m <= 0xffff_ffff_ffff_ffff {
                Some(m as u64)
            } else {
                None
            }
        },
    }
}

/// `s` read as an `i32`.
pub fn parse_i32(s: &[char]) -> (r: Option<i32>)
    ensures
        r == parse_i32_spec(s@),
{
    if s.len() == 0 {
        return None;
    }
    let neg = s[0] == '-';
    let start: usize = if s[0] == '+' || neg {
        1
    } else {
        0
    };
    assert(s@.skip(start as int) == (if s@[0] == '+' || neg {
        s@.drop_first()
    } else {
        s@
    }));
    match read_magnitude(s, start) {
        None => None,
        Some(m) => {
            if neg {
                if m <= 0x8000_0000 {
                    Some((0 - (m as i64)) as i32)
                } else {
                    None
                }
            } else if m <= 0x7fff_ffff {
                Some(m as i32)
            } else {
                None
            }
        },
    }
}

/// The ASCII digit for `d`.
pub open spec fn digit_char(d: int) -> char {
    if d == 0 { '0' } else if d == 1 { '1' } else if d == 2 { '2' } else if d == 3 { '3' }
    else if d == 4 { '4' } else if d == 5 { '5' } else if d == 6 { '6' } else if d == 7 { '7' }
    else if d == 8 { '8' } else { '9' }
}

/// The decimal digits of a non-negative `n`, without leading zeros.
pub open spec fn decimal_digits(n: nat) -> Seq<char>
    decreases n,
{
    if n < 10 {
        seq![digit_char(n as int)]
    } else {
        decimal_digits(n / 10) + seq![digit_char(n as int % 10)]
    }
}

/// `v` written in decimal, with a `-` before a negative value (`i64::to_string`).
pub open spec fn decimal_spec(v: int) -> Seq<char> {
    if v < 0 {
        seq!['-'] + decimal_digits((-v) as nat)
    } else {
        decimal_digits(v as nat)
    }
}

fn digit_of(d: u64) -> (c: char)
    requires
        d < 10,
    ensures
        c == digit_char(d as int),
{
    if d == 0 { '0' } else if d == 1 { '1' } else if d == 2 { '2' } else if d == 3 { '3' }
    else if d == 4 { '4' } else if d == 5 { '5' } else if d == 6 { '6' } else if d == 7 { '7' }
    else if d == 8 { '8' } else { '9' }
}

fn push_decimal_digits(n: u64, out: &mut Vec<char>)
    ensures
        final(out)@ == old(out)@ + decimal_digits(n as nat),
    decreases n,
{
    if n < 10 {
        out.push(digit_of(n));
    } else {
        push_decimal_digits(n / 10, out);
        out.push(digit_of(n % 10));
        assert(final(out)@ =~= old(out)@ + decimal_digits(n as nat));
    }
}

/// `v` written in decimal.
pub fn i64_to_decimal(v: i64) -> (s: String)
    ensures
        s@ == decimal_spec(v as int),
{
    let mut out: Vec<char> = Vec::new();
    if v < 0 {
        out.push('-');
        let m: u64 = (0 - (v as i128)) as u64;
        push_decimal_digits(m, &mut out);
    } else {
        push_decimal_digits(v as u64, &mut out);
    }
    string_from_chars(&out)
}

/// `v` written in decimal (`u64::to_string`).
pub fn u64_to_decimal(v: u64) -> (s: String)
    ensures
        s@ == decimal_spec(v as int),
{
    let mut out: Vec<char> = Vec::new();
    push_decimal_digits(v, &mut out);
    string_from_chars(&out)
}

proof fn lemma_digit_char(d: int)
    requires
        0 <= d < 10,
    ensures
        is_digit(digit_char(d)),
        digit_value(digit_char(d)) == d,
{
}

proof fn lemma_decimal_digits(n: nat)
    ensures
        decimal_digits(n).len() > 0,
        all_digits(decimal_digits(n)),
        digits_value(decimal_digits(n)) == n,
    decreases n,
{
    if n < 10 {
        lemma_digit_char(n as int);
        let s = decimal_digits(n);
        assert(s.drop_last() == Seq::<char>::empty());
        assert(digits_value(Seq::<char>::empty()) == 0);
        assert(s.last() == digit_char(n as int));
        assert(digits_value(s) == digits_value(s.drop_last()) * 10 + digit_value(s.last()));
    } else {
        lemma_decimal_digits(n / 10);
        lemma_digit_char(n as int % 10);
        let p = decimal_digits(n / 10);
        let s = decimal_digits(n);
        assert(s.drop_last() == p);
        assert(s.last() == digit_char(n as int % 10));
        assert(n == (n / 10) * 10 + n % 10) by (nonlinear_arith);
        assert(digits_value(s) == digits_value(s.drop_last()) * 10 + digit_value(s.last()));
        assert forall|i: int| 0 <= i < s.len() implies is_digit(#[trigger] s[i]) by {
            if i < p.len() {
                assert(s[i] == p[i]);
            }
        }
    }
}

/// Reading back an `i64` written in decimal gives the value.
pub proof fn law_parse_decimal(v: i64)
    ensures
        parse_i64_spec(decimal_spec(v as int)) == Some(v),
{
    if v < 0 {
        let n = (-v) as nat;
        lemma_decimal_digits(n);
        let s = decimal_spec(v as int);
        assert(s.drop_first() == decimal_digits(n));
        assert(s[0] == '-');
    } else {
        lemma_decimal_digits(v as nat);
        let s = decimal_digits(v as nat);
        assert(is_digit(s[0]));
    }
}

/// Reading back a `u64` written in decimal gives the value.
pub proof fn law_parse_u64_decimal(v: u64)
    ensures
        parse_u64_spec(decimal_spec(v as int)) == Some(v),
{
    lemma_decimal_digits(v as nat);
    let s = decimal_digits(v as nat);
    assert(is_digit(s[0]));
}

/// Reading back an `i32` written in decimal gives the value.
pub proof fn law_parse_i32_decimal(v: i32)
    ensures
        parse_i32_spec(decimal_spec(v as int)) == Some(v),
{
    law_parse_decimal(v as i64);
}

/// A number written in decimal holds no `.`.
pub(crate) proof fn lemma_decimal_no_dot(v: int)
    ensures
        !decimal_spec(v).contains('.'),
{
    if v < 0 {
        lemma_decimal_digits((-v) as nat);
        let d = decimal_digits((-v) as nat);
        let s = decimal_spec(v);
        if s.contains('.') {
            let j = choose|j: int| 0 <= j < s.len() && s[j] == '.';
            assert(s[0] == '-');
            assert(s[j] == d[j - 1]);
            assert(is_digit(d[j - 1]));
        }
    } else {
        lemma_decimal_digits(v as nat);
        let d = decimal_digits(v as nat);
        if d.contains('.') {
            let j = choose|j: int| 0 <= j < d.len() && d[j] == '.';
            assert(is_digit(d[j]));
        }
    }
}

} // verus!
