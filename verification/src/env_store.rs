//! The `.env` store: the lines of a `.env` file and the `KEY=value` pairs
//! read from them, updated in memory and rendered back so that comments,
//! blank lines and the order of the file survive.

use vstd::prelude::*;

use crate::text::{
    chars_eq, chars_of, find_spec, is_digit, join_lines, lemma_find, lemma_join_push, lines, lines_spec,
    split_once, split_once_spec, string_from_chars, strip_cr, trim, trim_spec, trim_start,
    trim_start_spec,
};

verus! {

// ---------------------------------------------------------------------
// Keys, quoting and lines
// ---------------------------------------------------------------------

/// An ASCII letter.
pub open spec fn is_ascii_alpha(c: char) -> bool {
    ('a' <= c && c <= 'z') || ('A' <= c && c <= 'Z')
}

/// A character allowed after the first one of a key.
pub open spec fn is_key_char(c: char) -> bool {
    c == '_' || is_ascii_alpha(c) || is_digit(c)
}

/// A key: a letter or `_`, then letters, digits and `_`.
pub open spec fn valid_key(k: Seq<char>) -> bool {
    &&& k.len() > 0
    &&& k[0] == '_' || is_ascii_alpha(k[0])
    &&& forall|i: int| 1 <= i < k.len() ==> is_key_char(#[trigger] k[i])
}

/// The key that a line assigns: the text before its first `=`, trimmed,
/// where the line, trimmed at the start, is neither empty nor a `#`
/// comment and that text is a valid key.
pub open spec fn parse_key_spec(line: Seq<char>) -> Option<Seq<char>> {
    let t = trim_start_spec(line);
    if t.len() == 0 || t[0] == '#' {
        None
    } else {
        match split_once_spec(t, '=') {
            Some(p) => {
                let k = trim_spec(p.0);
                if valid_key(k) {
                    Some(k)
                } else {
                    None
                }
            },
            None => None,
        }
    }
}

/// `v` with a backslash before each backslash and double quote.
pub open spec fn escape_spec(v: Seq<char>) -> Seq<char>
    decreases v.len(),
{
    if v.len() == 0 {
        Seq::empty()
    } else {
        let c = v[0];
        (if c == '\\' || c == '"' {
            seq!['\\', c]
        } else {
            seq![c]
        }) + escape_spec(v.drop_first())
    }
}

/// `v` in double quotes, escaped.
pub open spec fn quote_spec(v: Seq<char>) -> Seq<char> {
    seq!['"'] + escape_spec(v) + seq!['"']
}

/// `s` with each backslash dropped and the character after it kept; a
/// lone backslash at the end is kept.
pub open spec fn unescape_spec(s: Seq<char>) -> Seq<char>
    decreases s.len(),
{
    if s.len() == 0 {
        Seq::empty()
    } else if s[0] == '\\' {
        if s.len() == 1 {
            seq!['\\']
        } else {
            seq![s[1]] + unescape_spec(s.skip(2))
        }
    } else {
        seq![s[0]] + unescape_spec(s.drop_first())
    }
}

/// `s` with matching outer single or double quotes removed and its
/// escapes undone; any other `s` unchanged.
pub open spec fn unquote_spec(s: Seq<char>) -> Seq<char> {
    if s.len() >= 2 && s[0] == s.last() && (s[0] == '"' || s[0] == '\'') {
        unescape_spec(s.subrange(1, s.len() - 1))
    } else {
        s
    }
}

/// The pair that a line contributes: its key, and the text after its
/// first `=`, trimmed and unquoted.
pub open spec fn line_entry(line: Seq<char>) -> Option<(Seq<char>, Seq<char>)> {
    match parse_key_spec(line) {
        Some(k) => match split_once_spec(line, '=') {
            Some(p) => Some((k, unquote_spec(trim_spec(p.1)))),
            None => None,
        },
        None => None,
    }
}

/// The pairs read from `lines`, a later line winning over an earlier one.
pub open spec fn load_data(lines: Seq<Seq<char>>) -> Map<Seq<char>, Seq<char>>
    decreases lines.len(),
{
    if lines.len() == 0 {
        Map::empty()
    } else {
        let m = load_data(lines.drop_last());
        match line_entry(lines.last()) {
            Some(e) => m.insert(e.0, e.1),
            None => m,
        }
    }
}

/// The lines of a file body; no lines where there is no file.
pub open spec fn body_lines(body: Option<Seq<char>>) -> Seq<Seq<char>> {
    match body {
        Some(b) => lines_spec(b),
        None => Seq::empty(),
    }
}

// ---------------------------------------------------------------------
// Ordered entries
// ---------------------------------------------------------------------

/// `a` sorts before `b`: lexicographic order by code point, which is the
/// byte order of their UTF-8 encodings.
pub open spec fn lex_lt(a: Seq<char>, b: Seq<char>) -> bool
    decreases a.len(),
{
    if b.len() == 0 {
        false
    } else if a.len() == 0 {
        true
    } else if a[0] != b[0] {
        a[0] < b[0]
    } else {
        lex_lt(a.drop_first(), b.drop_first())
    }
}

proof fn lemma_lex_irreflexive(a: Seq<char>)
    ensures
        !lex_lt(a, a),
    decreases a.len(),
{
    if a.len() > 0 {
        lemma_lex_irreflexive(a.drop_first());
    }
}

proof fn lemma_lex_total(a: Seq<char>, b: Seq<char>)
    ensures
        a != b ==> lex_lt(a, b) || lex_lt(b, a),
    decreases a.len(),
{
    if a.len() > 0 && b.len() > 0 && a[0] == b[0] {
        lemma_lex_total(a.drop_first(), b.drop_first());
        if a.drop_first() == b.drop_first() {
            assert(a =~= seq![a[0]] + a.drop_first());
            assert(b =~= seq![b[0]] + b.drop_first());
        }
    }
    if a.len() == 0 && b.len() == 0 {
        assert(a =~= b);
    }
}

proof fn lemma_lex_transitive(a: Seq<char>, b: Seq<char>, c: Seq<char>)
    ensures
        lex_lt(a, b) && lex_lt(b, c) ==> lex_lt(a, c),
    decreases a.len(),
{
    if a.len() > 0 && b.len() > 0 && c.len() > 0 {
        lemma_lex_transitive(a.drop_first(), b.drop_first(), c.drop_first());
    }
}

proof fn lemma_lex_skip(a: Seq<char>, b: Seq<char>, i: int)
    requires
        0 <= i <= a.len(),
        i <= b.len(),
        forall|j: int| 0 <= j < i ==> a[j] == b[j],
    ensures
        lex_lt(a, b) == lex_lt(a.skip(i), b.skip(i)),
    decreases i,
{
    if i > 0 {
        lemma_lex_skip(a.drop_first(), b.drop_first(), i - 1);
        assert(a.drop_first().skip(i - 1) == a.skip(i));
        assert(b.drop_first().skip(i - 1) == b.skip(i));
    } else {
        assert(a.skip(0) == a);
        assert(b.skip(0) == b);
    }
}

/// Whether `a` sorts before `b`.
fn chars_lt(a: &[char], b: &[char]) -> (r: bool)
    ensures
        r == lex_lt(a@, b@),
{
    let mut i: usize = 0;
    while i < a.len() && i < b.len() && a[i] == b[i]
        invariant
            i <= a@.len(),
            i <= b@.len(),
            forall|j: int| 0 <= j < i ==> a@[j] == b@[j],
        decreases a.len() - i,
    {
        i = i + 1;
    }
    proof {
        lemma_lex_skip(a@, b@, i as int);
    }
    if i == b.len() {
        false
    } else if i == a.len() {
        true
    } else {
        a[i] < b[i]
    }
}

/// The entries of a store, as text.
pub open spec fn entry_views(v: Seq<(String, String)>) -> Seq<(Seq<char>, Seq<char>)> {
    v.map_values(|e: (String, String)| (e.0@, e.1@))
}

/// Keys in strictly increasing order.
pub open spec fn sorted_keys(es: Seq<(Seq<char>, Seq<char>)>) -> bool {
    forall|i: int, j: int| 0 <= i < j < es.len() ==> lex_lt(#[trigger] es[i].0, #[trigger] es[j].0)
}

/// The map that entries spell out.
pub open spec fn entries_map(es: Seq<(Seq<char>, Seq<char>)>) -> Map<Seq<char>, Seq<char>>
    decreases es.len(),
{
    if es.len() == 0 {
        Map::empty()
    } else {
        entries_map(es.drop_last()).insert(es.last().0, es.last().1)
    }
}

/// Keys named once.
pub open spec fn unique_keys(es: Seq<(Seq<char>, Seq<char>)>) -> bool {
    forall|i: int, j: int| 0 <= i < es.len() && 0 <= j < es.len() && i != j ==> es[i].0 != es[j].0
}

proof fn lemma_sorted_unique(es: Seq<(Seq<char>, Seq<char>)>)
    requires
        sorted_keys(es),
    ensures
        unique_keys(es),
{
    assert forall|i: int, j: int|
        0 <= i < es.len() && 0 <= j < es.len() && i != j implies es[i].0 != es[j].0 by {
        if i < j {
            assert(lex_lt(es[i].0, es[j].0));
            lemma_lex_irreflexive(es[i].0);
        } else {
            assert(lex_lt(es[j].0, es[i].0));
            lemma_lex_irreflexive(es[j].0);
        }
    }
}

/// With keys named once, the map holds exactly the entries' keys, each with
/// its entry's value.
proof fn lemma_entries_map(es: Seq<(Seq<char>, Seq<char>)>)
    requires
        unique_keys(es),
    ensures
        forall|k: Seq<char>|
            #[trigger] entries_map(es).contains_key(k) <==> exists|i: int|
                0 <= i < es.len() && es[i].0 == k,
        forall|i: int| 0 <= i < es.len() ==> entries_map(es)[#[trigger] es[i].0] == es[i].1,
    decreases es.len(),
{
    if es.len() > 0 {
        let p = es.drop_last();
        assert forall|i: int, j: int|
            0 <= i < p.len() && 0 <= j < p.len() && i != j implies p[i].0 != p[j].0 by {
            assert(p[i] == es[i]);
            assert(p[j] == es[j]);
        }
        lemma_entries_map(p);
        assert forall|k: Seq<char>|
            #[trigger] entries_map(es).contains_key(k) <==> exists|i: int|
                0 <= i < es.len() && es[i].0 == k by {
            if entries_map(es).contains_key(k) {
                if k == es.last().0 {
                    assert(es[es.len() - 1].0 == k);
                } else {
                    assert(entries_map(p).contains_key(k));
                    let i = choose|i: int| 0 <= i < p.len() && p[i].0 == k;
                    assert(es[i] == p[i]);
                }
            }
            if exists|i: int| 0 <= i < es.len() && es[i].0 == k {
                let i = choose|i: int| 0 <= i < es.len() && es[i].0 == k;
                if i < p.len() {
                    assert(p[i] == es[i]);
                    assert(entries_map(p).contains_key(k));
                }
            }
        }
        assert forall|i: int| 0 <= i < es.len() implies entries_map(es)[#[trigger] es[i].0]
            == es[i].1 by {
            if i < es.len() - 1 {
                assert(p[i] == es[i]);
                assert(es[i].0 != es[es.len() - 1].0);
            }
        }
    }
}

/// A copy of `v`.
fn copy_entries(v: &Vec<(String, String)>) -> (r: Vec<(String, String)>)
    ensures
        r@ == v@,
{
    let mut r: Vec<(String, String)> = Vec::new();
    for i in 0..v.len()
        invariant
            r@ == v@.take(i as int),
    {
        let e = (v[i].0.clone(), v[i].1.clone());
        r.push(e);
        assert(r@ =~= v@.take(i + 1));
    }
    assert(v@.take(v@.len() as int) == v@);
    r
}

/// Inserts `key` with `value` at its place in sorted entries, replacing
/// the value of an equal key.
fn insert_sorted(entries: &mut Vec<(String, String)>, key: String, value: String)
    requires
        sorted_keys(entry_views(old(entries)@)),
    ensures
        sorted_keys(entry_views(final(entries)@)),
        entries_map(entry_views(final(entries)@)) == entries_map(entry_views(old(entries)@)).insert(
            key@,
            value@,
        ),
{
    let ghost old_es = entry_views(entries@);
    let kc = chars_of(key.as_str());
    let mut i: usize = 0;
    while i < entries.len()
        invariant
            i <= entries@.len(),
            entries@ == old(entries)@,
            old_es == entry_views(entries@),
            kc@ == key@,
            forall|j: int| 0 <= j < i ==> lex_lt(#[trigger] old_es[j].0, key@),
        ensures
            i <= entries@.len(),
            entries@ == old(entries)@,
            old_es == entry_views(entries@),
            kc@ == key@,
            forall|j: int| 0 <= j < i ==> lex_lt(#[trigger] old_es[j].0, key@),
            i < entries@.len() ==> !lex_lt(old_es[i as int].0, key@),
        decreases entries.len() - i,
    {
        let ec = chars_of(entries[i].0.as_str());
        if !chars_lt(&ec, &kc) {
            break;
        }
        i = i + 1;
    }
    proof {
        lemma_sorted_unique(old_es);
        lemma_entries_map(old_es);
    }
    let found = if i < entries.len() {
        let ec = chars_of(entries[i].0.as_str());
        chars_eq(&ec, &kc)
    } else {
        false
    };
    if found {
        let ghost idx = i as int;
        entries.set(i, (key, value));
        let ghost new_es = entry_views(entries@);
        proof {
            assert(new_es == old_es.update(idx, (key@, value@)));
            assert forall|a: int, b: int| 0 <= a < b < new_es.len() implies lex_lt(
                #[trigger] new_es[a].0,
                #[trigger] new_es[b].0,
            ) by {
                assert(lex_lt(old_es[a].0, old_es[b].0));
            }
            lemma_sorted_unique(new_es);
            lemma_entries_map(new_es);
            assert(entries_map(new_es) =~= entries_map(old_es).insert(key@, value@)) by {
                assert forall|k: Seq<char>| #[trigger]
                    entries_map(new_es).contains_key(k) == entries_map(old_es).insert(
                        key@,
                        value@,
                    ).contains_key(k) by {
                    if entries_map(new_es).contains_key(k) {
                        let j = choose|j: int| 0 <= j < new_es.len() && new_es[j].0 == k;
                        if j != idx {
                            assert(old_es[j].0 == k);
                        }
                    }
                    if entries_map(old_es).contains_key(k) {
                        let j = choose|j: int| 0 <= j < old_es.len() && old_es[j].0 == k;
                        assert(new_es[j].0 == k);
                    }
                    assert(new_es[idx].0 == key@);
                }
                assert forall|k: Seq<char>| #[trigger]
                    entries_map(new_es).contains_key(k) implies entries_map(new_es)[k]
                    == entries_map(old_es).insert(key@, value@)[k] by {
                    let j = choose|j: int| 0 <= j < new_es.len() && new_es[j].0 == k;
                    assert(entries_map(new_es)[new_es[j].0] == new_es[j].1);
                    if j != idx {
                        assert(new_es[j].0 != new_es[idx].0);
                        assert(entries_map(old_es)[old_es[j].0] == old_es[j].1);
                    }
                }
            }
        }
    } else {
        let ghost idx = i as int;
        proof {
            if i < entries.len() {
                lemma_lex_total(old_es[idx].0, key@);
                assert(lex_lt(key@, old_es[idx].0));
            }
        }
        entries.insert(i, (key, value));
        let ghost new_es = entry_views(entries@);
        proof {
            assert(new_es == old_es.insert(idx, (key@, value@)));
            assert forall|a: int, b: int| 0 <= a < b < new_es.len() implies lex_lt(
                #[trigger] new_es[a].0,
                #[trigger] new_es[b].0,
            ) by {
                if b < idx {
                    assert(lex_lt(old_es[a].0, old_es[b].0));
                } else if b == idx {
                } else if a == idx {
                    assert(new_es[b] == old_es[b - 1]);
                    if b - 1 > idx {
                        assert(lex_lt(old_es[idx].0, old_es[b - 1].0));
                        lemma_lex_transitive(key@, old_es[idx].0, old_es[b - 1].0);
                    }
                } else if a < idx {
                    assert(new_es[b] == old_es[b - 1]);
                    if b - 1 > idx {
                        assert(lex_lt(old_es[idx].0, old_es[b - 1].0));
                        lemma_lex_transitive(key@, old_es[idx].0, old_es[b - 1].0);
                    }
                    lemma_lex_transitive(old_es[a].0, key@, old_es[b - 1].0);
                } else {
                    assert(lex_lt(old_es[a - 1].0, old_es[b - 1].0));
                }
            }
            lemma_sorted_unique(new_es);
            lemma_entries_map(new_es);
            assert(entries_map(new_es) =~= entries_map(old_es).insert(key@, value@)) by {
                assert forall|k: Seq<char>| #[trigger]
                    entries_map(new_es).contains_key(k) == entries_map(old_es).insert(
                        key@,
                        value@,
                    ).contains_key(k) by {
                    if entries_map(new_es).contains_key(k) {
                        let j = choose|j: int| 0 <= j < new_es.len() && new_es[j].0 == k;
                        if j < idx {
                            assert(old_es[j].0 == k);
                        } else if j > idx {
                            assert(old_es[j - 1].0 == k);
                        }
                    }
                    if entries_map(old_es).contains_key(k) {
                        let j = choose|j: int| 0 <= j < old_es.len() && old_es[j].0 == k;
                        if j < idx {
                            assert(new_es[j].0 == k);
                        } else {
                            assert(new_es[j + 1].0 == k);
                        }
                    }
                    assert(new_es[idx].0 == key@);
                }
                assert forall|k: Seq<char>| #[trigger]
                    entries_map(new_es).contains_key(k) implies entries_map(new_es)[k]
                    == entries_map(old_es).insert(key@, value@)[k] by {
                    let j = choose|j: int| 0 <= j < new_es.len() && new_es[j].0 == k;
                    assert(entries_map(new_es)[new_es[j].0] == new_es[j].1);
                    if j < idx {
                        assert(new_es[j].0 != new_es[idx].0);
                        assert(entries_map(old_es)[old_es[j].0] == old_es[j].1);
                    } else if j > idx {
                        assert(new_es[j].0 != new_es[idx].0);
                        assert(entries_map(old_es)[old_es[j - 1].0] == old_es[j - 1].1);
                    }
                }
            }
        }
    }
}

// ---------------------------------------------------------------------
// Line-level operations
// ---------------------------------------------------------------------

/// Whether `k` is a valid key.
pub fn is_valid_key(k: &[char]) -> (b: bool)
    ensures
        b == valid_key(k@),
{
    if k.len() == 0 {
        return false;
    }
    let c0 = k[0];
    if !(c0 == '_' || ('a' <= c0 && c0 <= 'z') || ('A' <= c0 && c0 <= 'Z')) {
        return false;
    }
    let mut i: usize = 1;
    while i < k.len()
        invariant
            1 <= i <= k@.len(),
            forall|j: int| 1 <= j < i ==> is_key_char(#[trigger] k@[j]),
        decreases k.len() - i,
    {
        let c = k[i];
        if !(c == '_' || ('a' <= c && c <= 'z') || ('A' <= c && c <= 'Z') || ('0' <= c && c
            <= '9')) {
            return false;
        }
        i = i + 1;
    }
    true
}

/// The key that `line` assigns.
pub fn parse_key(line: &[char]) -> (r: Option<Vec<char>>)
    ensures
        r matches Some(k) ==> parse_key_spec(line@) == Some(k@),
        r is None ==> parse_key_spec(line@) is None,
{
    let t = trim_start(line);
    if t.len() == 0 || t[0] == '#' {
        return None;
    }
    match split_once(&t, '=') {
        Some((k, _)) => {
            let key = trim(&k);
            if is_valid_key(&key) {
                Some(key)
            } else {
                None
            }
        },
        None => None,
    }
}

/// Escaping a concatenation escapes each part.
pub proof fn lemma_escape_append(a: Seq<char>, b: Seq<char>)
    ensures
        escape_spec(a + b) == escape_spec(a) + escape_spec(b),
    decreases a.len(),
{
    if a.len() > 0 {
        lemma_escape_append(a.drop_first(), b);
        assert((a + b).drop_first() == a.drop_first() + b);
        assert((a + b)[0] == a[0]);
    } else {
        assert(a + b == b);
    }
}

/// `value` in double quotes, with backslashes and double quotes escaped.
pub fn quote(value: &[char]) -> (r: Vec<char>)
    ensures
        r@ == quote_spec(value@),
{
    let mut r: Vec<char> = Vec::new();
    r.push('"');
    for i in 0..value.len()
        invariant
            r@ == seq!['"'] + escape_spec(value@.take(i as int)),
    {
        let c = value[i];
        proof {
            lemma_escape_append(value@.take(i as int), seq![c]);
            assert(value@.take(i + 1) == value@.take(i as int) + seq![c]);
            assert(seq![c].drop_first() == Seq::<char>::empty());
            assert(escape_spec(Seq::<char>::empty()) == Seq::<char>::empty());
            assert(escape_spec(seq![c]) == (if c == '\\' || c == '"' {
                seq!['\\', c]
            } else {
                seq![c]
            }) + escape_spec(seq![c].drop_first()));
        }
        if c == '\\' || c == '"' {
            r.push('\\');
        }
        r.push(c);
        assert(r@ =~= seq!['"'] + escape_spec(value@.take(i + 1)));
    }
    r.push('"');
    assert(value@.take(value@.len() as int) == value@);
    r
}

/// `value` with matching outer quotes removed and escapes undone.
pub fn unquote(value: &[char]) -> (r: Vec<char>)
    ensures
        r@ == unquote_spec(value@),
{
    let n = value.len();
    if n < 2 || value[0] != value[n - 1] || (value[0] != '"' && value[0] != '\'') {
        let mut same: Vec<char> = Vec::new();
        for i in 0..n
            invariant
                n == value@.len(),
                same@ == value@.take(i as int),
        {
            same.push(value[i]);
            assert(value@.take(i + 1) == value@.take(i as int).push(value@[i as int]));
        }
        assert(value@.take(n as int) == value@);
        return same;
    }
    let ghost inner = value@.subrange(1, n - 1);
    let mut result: Vec<char> = Vec::new();
    let mut escaped = false;
    let mut i: usize = 1;
    assert(inner.skip(0) == inner);
    assert(result@ + unescape_spec(inner) == unescape_spec(inner));
    while i < n - 1
        invariant
            2 <= n == value@.len(),
            1 <= i <= n - 1,
            inner == value@.subrange(1, n - 1),
            unescape_spec(inner) == result@ + if escaped {
                unescape_spec(seq!['\\'] + inner.skip(i - 1))
            } else {
                unescape_spec(inner.skip(i - 1))
            },
        decreases n - 1 - i,
    {
        let c = value[i];
        let ghost rest = inner.skip(i - 1);
        proof {
            assert(rest[0] == c);
            assert(rest.drop_first() == inner.skip(i as int));
        }
        if escaped {
            proof {
                let s2 = seq!['\\'] + rest;
                assert(s2[1] == c);
                assert(s2.skip(2) == inner.skip(i as int));
            }
            result.push(c);
            escaped = false;
        } else if c == '\\' {
            proof {
                assert(seq!['\\'] + inner.skip(i as int) == rest);
            }
            escaped = true;
        } else {
            result.push(c);
        }
        i = i + 1;
    }
    proof {
        assert(inner.skip(i - 1) == Seq::<char>::empty());
        assert(seq!['\\'] + inner.skip(i - 1) == seq!['\\']);
    }
    if escaped {
        result.push('\\');
    }
    assert(result@ == unescape_spec(inner));
    result
}

/// The pair that `line` contributes.
pub fn line_entry_of(line: &[char]) -> (r: Option<(Vec<char>, Vec<char>)>)
    ensures
        r matches Some(p) ==> line_entry(line@) == Some((p.0@, p.1@)),
        r is None ==> line_entry(line@) is None,
{
    match parse_key(line) {
        Some(k) => match split_once(line, '=') {
            Some((_, v)) => {
                let t = trim(&v);
                let u = unquote(&t);
                Some((k, u))
            },
            None => None,
        },
        None => None,
    }
}

/// `s` without its leading whitespace is a suffix of `s`.
pub proof fn lemma_trim_start_suffix(s: Seq<char>) -> (k: int)
    ensures
        0 <= k <= s.len(),
        trim_start_spec(s) == s.skip(k),
    decreases s.len(),
{
    if s.len() > 0 && crate::text::is_white_space(s[0]) {
        let k = lemma_trim_start_suffix(s.drop_first());
        assert(s.drop_first().skip(k) == s.skip(k + 1));
        k + 1
    } else {
        assert(s.skip(0) == s);
        0
    }
}

/// A line that names a key has an `=` to split at.
pub proof fn lemma_key_line_splits(line: Seq<char>)
    ensures
        parse_key_spec(line) is Some ==> split_once_spec(line, '=') is Some,
{
    if parse_key_spec(line) is Some {
        let k = lemma_trim_start_suffix(line);
        let t = trim_start_spec(line);
        lemma_find(t, '=');
        let j = find_spec(t, '=')->0;
        assert(t[j] == line[k + j]);
        lemma_find(line, '=');
    }
}

/// No line of a body holds a line feed.
pub proof fn lemma_lines_no_newline(s: Seq<char>)
    ensures
        forall|i: int| 0 <= i < lines_spec(s).len() ==> !(#[trigger] lines_spec(s)[i]).contains(
            '\n',
        ),
    decreases s.len(),
{
    if s.len() > 0 {
        lemma_find(s, '\n');
        match find_spec(s, '\n') {
            Some(i) => {
                lemma_lines_no_newline(s.skip(i + 1));
                let first = strip_cr(s.take(i));
                assert(!first.contains('\n')) by {
                    if first.contains('\n') {
                        let j = choose|j: int| 0 <= j < first.len() && first[j] == '\n';
                        assert(s[j] == '\n');
                    }
                }
                let ls = lines_spec(s);
                assert(ls == seq![first] + lines_spec(s.skip(i + 1)));
                assert forall|a: int| 0 <= a < ls.len() implies !(#[trigger] ls[a]).contains(
                    '\n',
                ) by {
                    if a > 0 {
                        assert(ls[a] == lines_spec(s.skip(i + 1))[a - 1]);
                    }
                }
            },
            None => {
                assert(lines_spec(s) == seq![s]);
            },
        }
    }
}

// ---------------------------------------------------------------------
// The store
// ---------------------------------------------------------------------

/// The view of an optional body.
pub open spec fn body_view(body: Option<&str>) -> Option<Seq<char>> {
    match body {
        Some(b) => Some(b@),
        None => None,
    }
}

/// The line written for a key and its value: `KEY="value"`.
pub open spec fn entry_line(k: Seq<char>, v: Seq<char>) -> Seq<char> {
    k + seq!['='] + quote_spec(v)
}

/// A line of the file, with the value of its key replaced where the map
/// has that key.
pub open spec fn rewrite_line(line: Seq<char>, m: Map<Seq<char>, Seq<char>>) -> Seq<char> {
    match parse_key_spec(line) {
        Some(k) => if m.contains_key(k) {
            entry_line(k, m[k])
        } else {
            line
        },
        None => line,
    }
}

/// Some line of `lines` assigns `k`.
pub open spec fn has_key_line(lines: Seq<Seq<char>>, k: Seq<char>) -> bool {
    exists|i: int| 0 <= i < lines.len() && parse_key_spec(#[trigger] lines[i]) == Some(k)
}

/// The lines written for the entries that no line of the file assigns, in
/// key order.
pub open spec fn appended_lines(lines: Seq<Seq<char>>, es: Seq<(Seq<char>, Seq<char>)>) -> Seq<
    Seq<char>,
>
    decreases es.len(),
{
    if es.len() == 0 {
        Seq::empty()
    } else {
        appended_lines(lines, es.drop_last()) + if has_key_line(lines, es.last().0) {
            Seq::empty()
        } else {
            seq![entry_line(es.last().0, es.last().1)]
        }
    }
}

/// The lines of the rendered file: every line kept in place, key lines
/// rewritten with the current value, then the new keys.
pub open spec fn rendered_lines(lines: Seq<Seq<char>>, es: Seq<(Seq<char>, Seq<char>)>) -> Seq<
    Seq<char>,
> {
    lines.map_values(|l: Seq<char>| rewrite_line(l, entries_map(es))) + appended_lines(lines, es)
}

/// The rendered file: its lines joined by line feeds, with a final line feed.
pub open spec fn render_spec(lines: Seq<Seq<char>>, es: Seq<(Seq<char>, Seq<char>)>) -> Seq<
    char,
> {
    join_lines(rendered_lines(lines, es)) + seq!['\n']
}

/// The text of an optional key.
pub open spec fn option_view(o: Option<Vec<char>>) -> Option<Seq<char>> {
    match o {
        Some(v) => Some(v@),
        None => None,
    }
}

/// A copy of `v`.
fn copy_chars(v: &Vec<char>) -> (r: Vec<char>)
    ensures
        r@ == v@,
{
    crate::text::copy_range(v.as_slice(), 0, v.len())
}

/// The line `KEY="value"`.
fn entry_line_of(k: &[char], v: &str) -> (r: Vec<char>)
    ensures
        r@ == entry_line(k@, v@),
{
    let vc = chars_of(v);
    let q = quote(&vc);
    let mut r: Vec<char> = Vec::new();
    for i in 0..k.len()
        invariant
            r@ == k@.take(i as int),
    {
        r.push(k[i]);
        assert(r@ =~= k@.take(i + 1));
    }
    r.push('=');
    for i in 0..q.len()
        invariant
            r@ == k@ + seq!['='] + q@.take(i as int),
    {
        r.push(q[i]);
        assert(r@ =~= k@ + seq!['='] + q@.take(i + 1));
    }
    assert(k@.take(k@.len() as int) == k@);
    assert(q@.take(q@.len() as int) == q@);
    r
}

/// The lines joined by `'\n'`, with a final `'\n'`.
fn join_with_newline(ls: &Vec<Vec<char>>) -> (r: Vec<char>)
    ensures
        r@ == join_lines(ls@.map_values(|l: Vec<char>| l@)) + seq!['\n'],
{
    let ghost lv = ls@.map_values(|l: Vec<char>| l@);
    let mut r: Vec<char> = Vec::new();
    for i in 0..ls.len()
        invariant
            lv == ls@.map_values(|l: Vec<char>| l@),
            r@ == join_lines(lv.take(i as int)),
    {
        proof {
            lemma_join_push(lv.take(i as int), lv[i as int]);
            assert(lv.take(i + 1) == lv.take(i as int).push(lv[i as int]));
        }
        let ghost before = r@;
        if i > 0 {
            r.push('\n');
        }
        let line = &ls[i];
        for j in 0..line.len()
            invariant
                r@ == (if i > 0 {
                    before + seq!['\n']
                } else {
                    before
                }) + line@.take(j as int),
        {
            r.push(line[j]);
            assert(r@ =~= (if i > 0 {
                before + seq!['\n']
            } else {
                before
            }) + line@.take(j + 1));
        }
        proof {
            assert(line@.take(line@.len() as int) == line@);
            assert(lv[i as int] == line@);
            if i == 0 {
                assert(before == Seq::<char>::empty());
                assert(r@ == line@);
            }
        }
    }
    proof {
        assert(lv.take(lv.len() as int) == lv);
    }
    r.push('\n');
    r
}

/// The lines of a `.env` file and the pairs read from them.
#[derive(Debug)]
pub struct DotEnvStore {
    path: String,
    lines: Vec<String>,
    entries: Vec<(String, String)>,
}

impl DotEnvStore {
    /// The file's path.
    pub closed spec fn path_view(self) -> Seq<char> {
        self.path@
    }

    /// The file's lines.
    pub closed spec fn lines_view(self) -> Seq<Seq<char>> {
        self.lines@.map_values(|l: String| l@)
    }

    /// The pairs, in key order.
    pub closed spec fn entries_view(self) -> Seq<(Seq<char>, Seq<char>)> {
        entry_views(self.entries@)
    }

    /// The pairs, as a map from key to value.
    pub open spec fn data(self) -> Map<Seq<char>, Seq<char>> {
        entries_map(self.entries_view())
    }

    /// Entries in key order; no line holds a line feed; every key that a
    /// line assigns has a value.
    #[verifier::type_invariant]
    pub closed spec fn wf(self) -> bool {
        &&& sorted_keys(self.entries_view())
        &&& forall|i: int|
            0 <= i < self.lines_view().len() ==> !(#[trigger] self.lines_view()[i]).contains('\n')
        &&& forall|i: int|
            0 <= i < self.lines_view().len() ==> (parse_key_spec(#[trigger] self.lines_view()[i])
                matches Some(k) ==> entries_map(self.entries_view()).contains_key(k))
    }

    /// A store for the file at `path` whose text is `body`, `None` where
    /// there is no such file: its lines, and every `KEY=value` pair read
    /// from them, a later line winning.
    pub fn new(path: &str, body: Option<&str>) -> (s: Self)
        ensures
            s.path_view() == path@,
            s.lines_view() == body_lines(body_view(body)),
            s.data() == load_data(s.lines_view()),
    {
        let line_chars: Vec<Vec<char>> = match body {
            Some(b) => {
                let c = chars_of(b);
                lines(&c)
            },
            None => Vec::new(),
        };
        let ghost lc = line_chars@.map_values(|l: Vec<char>| l@);
        proof {
            match body {
                Some(b) => {
                    lemma_lines_no_newline(b@);
                },
                None => {},
            }
            assert(lc == body_lines(body_view(body)));
        }
        let mut kept: Vec<String> = Vec::new();
        let mut entries: Vec<(String, String)> = Vec::new();
        for i in 0..line_chars.len()
            invariant
                lc == line_chars@.map_values(|l: Vec<char>| l@),
                lc == body_lines(body_view(body)),
                forall|j: int| 0 <= j < lc.len() ==> !(#[trigger] lc[j]).contains('\n'),
                kept@.map_values(|l: String| l@) == lc.take(i as int),
                sorted_keys(entry_views(entries@)),
                entries_map(entry_views(entries@)) == load_data(lc.take(i as int)),
                forall|j: int|
                    0 <= j < i ==> (parse_key_spec(#[trigger] lc[j]) matches Some(k)
                        ==> entries_map(entry_views(entries@)).contains_key(k)),
        {
            let l = &line_chars[i];
            let ghost before = entries_map(entry_views(entries@));
            proof {
                assert(lc.take(i + 1).drop_last() == lc.take(i as int));
                assert(lc.take(i + 1).last() == l@);
                lemma_key_line_splits(l@);
            }
            match line_entry_of(l) {
                Some((k, v)) => {
                    insert_sorted(&mut entries, string_from_chars(&k), string_from_chars(&v));
                },
                None => {},
            }
            kept.push(string_from_chars(l));
            proof {
                assert(kept@.map_values(|l: String| l@) =~= lc.take(i + 1));
                assert forall|j: int| 0 <= j < i + 1 implies (parse_key_spec(#[trigger] lc[j])
                    matches Some(k) ==> entries_map(entry_views(entries@)).contains_key(k)) by {
                    if j < i {
                        if let Some(k) = parse_key_spec(lc[j]) {
                            assert(before.contains_key(k));
                        }
                    }
                }
            }
        }
        proof {
            assert(lc.take(lc.len() as int) == lc);
        }
        let s = DotEnvStore { path: path.to_owned(), lines: kept, entries };
        s
    }

    /// The index of the entry named `k`.
    fn find_entry(&self, k: &[char]) -> (r: Option<usize>)
        ensures
            r matches Some(i) ==> i < self.entries_view().len() && self.entries_view()[i as int].0
                == k@,
            r is None ==> !self.data().contains_key(k@),
    {
        proof {
            use_type_invariant(self);
            lemma_sorted_unique(self.entries_view());
            lemma_entries_map(self.entries_view());
        }
        let mut i: usize = 0;
        while i < self.entries.len()
            invariant
                i <= self.entries_view().len(),
                self.entries_view().len() == self.entries@.len(),
                forall|j: int| 0 <= j < i ==> (#[trigger] self.entries_view()[j]).0 != k@,
            decreases self.entries.len() - i,
        {
            let ec = chars_of(self.entries[i].0.as_str());
            if chars_eq(&ec, k) {
                return Some(i);
            }
            i = i + 1;
        }
        None
    }

    /// The value stored under `key`.
    pub fn get(&self, key: &str) -> (r: Option<&str>)
        ensures
            r matches Some(v) ==> self.data().contains_key(key@) && v@ == self.data()[key@],
            r is None ==> !self.data().contains_key(key@),
    {
        proof {
            use_type_invariant(self);
            lemma_sorted_unique(self.entries_view());
            lemma_entries_map(self.entries_view());
        }
        let k = chars_of(key);
        match self.find_entry(&k) {
            Some(i) => {
                proof {
                    assert(self.data()[self.entries_view()[i as int].0] == self.entries_view()[i as int].1);
                }
                Some(self.entries[i].1.as_str())
            },
            None => None,
        }
    }

    /// Stores `value` under `key`, replacing an earlier value.
    pub fn set(&mut self, key: &str, value: &str)
        ensures
            final(self).data() == old(self).data().insert(key@, value@),
            final(self).lines_view() == old(self).lines_view(),
            final(self).path_view() == old(self).path_view(),
    {
        proof {
            use_type_invariant(&*self);
        }
        let mut entries = copy_entries(&self.entries);
        insert_sorted(&mut entries, key.to_owned(), value.to_owned());
        self.entries = entries;
    }

    /// The text written back to the file: every line kept in place with the
    /// value of its key brought up to date, then a `KEY="value"` line for
    /// each key that no line assigns, in key order; lines joined by `'\n'`,
    /// with a final `'\n'`.
    pub fn render(&self) -> (r: String)
        ensures
            r@ == render_spec(self.lines_view(), self.entries_view()),
            sorted_keys(self.entries_view()),
            entries_map(self.entries_view()) == self.data(),
    {
        proof {
            use_type_invariant(self);
            lemma_sorted_unique(self.entries_view());
            lemma_entries_map(self.entries_view());
        }
        let ghost ls = self.lines_view();
        let ghost es = self.entries_view();
        let ghost m = self.data();
        let mut out: Vec<Vec<char>> = Vec::new();
        let mut keys: Vec<Option<Vec<char>>> = Vec::new();
        for i in 0..self.lines.len()
            invariant
                ls == self.lines_view(),
                es == self.entries_view(),
                m == self.data(),
                ls.len() == self.lines@.len(),
                forall|j: int| 0 <= j < es.len() ==> m[#[trigger] es[j].0] == es[j].1,
                forall|j: int| 0 <= j < es.len() ==> m.contains_key(#[trigger] es[j].0),
                out@.map_values(|l: Vec<char>| l@) == ls.take(i as int).map_values(
                    |l: Seq<char>| rewrite_line(l, m),
                ),
                keys@.len() == i,
                forall|j: int|
                    0 <= j < i ==> #[trigger] option_view(keys@[j]) == parse_key_spec(ls[j]),
        {
            let lc = chars_of(self.lines[i].as_str());
            let pk = parse_key(&lc);
            proof {
                assert(lc@ == ls[i as int]);
            }
            let line = match &pk {
                Some(k) => match self.find_entry(k) {
                    Some(j) => {
                        proof {
                            assert(m[es[j as int].0] == es[j as int].1);
                        }
                        entry_line_of(k, self.entries[j].1.as_str())
                    },
                    None => copy_chars(&lc),
                },
                None => copy_chars(&lc),
            };
            proof {
                assert(line@ == rewrite_line(ls[i as int], m));
                assert(ls.take(i + 1) == ls.take(i as int).push(ls[i as int]));
                assert(ls.take(i + 1).map_values(|l: Seq<char>| rewrite_line(l, m)) == ls.take(
                    i as int,
                ).map_values(|l: Seq<char>| rewrite_line(l, m)).push(rewrite_line(ls[i as int], m)));
            }
            out.push(line);
            keys.push(pk);
            proof {
                assert(out@.map_values(|l: Vec<char>| l@) =~= ls.take(i + 1).map_values(
                    |l: Seq<char>| rewrite_line(l, m),
                ));
                assert(option_view(keys@[i as int]) == parse_key_spec(ls[i as int]));
            }
        }
        proof {
            assert(ls.take(ls.len() as int) == ls);
            assert(es.take(0) == Seq::<(Seq<char>, Seq<char>)>::empty());
            assert(out@.map_values(|l: Vec<char>| l@) == ls.map_values(
                |l: Seq<char>| rewrite_line(l, m),
            ) + appended_lines(ls, es.take(0)));
        }
        for j in 0..self.entries.len()
            invariant
                ls == self.lines_view(),
                es == self.entries_view(),
                m == self.data(),
                es.len() == self.entries@.len(),
                keys@.len() == ls.len(),
                forall|a: int|
                    0 <= a < ls.len() ==> #[trigger] option_view(keys@[a]) == parse_key_spec(ls[a]),
                out@.map_values(|l: Vec<char>| l@) == ls.map_values(
                    |l: Seq<char>| rewrite_line(l, m),
                ) + appended_lines(ls, es.take(j as int)),
        {
            let kc = chars_of(self.entries[j].0.as_str());
            let mut found = false;
            let mut a: usize = 0;
            while a < keys.len()
                invariant
                    a <= keys@.len(),
                    keys@.len() == ls.len(),
                    forall|b: int|
                        0 <= b < ls.len() ==> #[trigger] option_view(keys@[b]) == parse_key_spec(
                            ls[b],
                        ),
                    found == exists|b: int|
                        0 <= b < a && parse_key_spec(#[trigger] ls[b]) == Some(kc@),
                decreases keys.len() - a,
            {
                let hit = match &keys[a] {
                    Some(k) => chars_eq(k, &kc),
                    None => false,
                };
                proof {
                    assert(option_view(keys@[a as int]) == parse_key_spec(ls[a as int]));
                    if hit {
                        assert(parse_key_spec(ls[a as int]) == Some(kc@));
                    }
                    if parse_key_spec(ls[a as int]) == Some(kc@) {
                        assert(hit);
                    }
                }
                found = found || hit;
                a = a + 1;
            }
            proof {
                assert(kc@ == es[j as int].0);
                assert(found == has_key_line(ls, es[j as int].0));
                assert(es.take(j + 1).drop_last() == es.take(j as int));
                assert(es.take(j + 1).last() == es[j as int]);
            }
            let ghost before = out@.map_values(|l: Vec<char>| l@);
            if !found {
                let line = entry_line_of(&kc, self.entries[j].1.as_str());
                proof {
                    assert(line@ == entry_line(es[j as int].0, es[j as int].1));
                }
                out.push(line);
                proof {
                    assert(out@.map_values(|l: Vec<char>| l@) =~= before.push(line@));
                }
            }
            proof {
                assert(out@.map_values(|l: Vec<char>| l@) =~= ls.map_values(
                    |l: Seq<char>| rewrite_line(l, m),
                ) + appended_lines(ls, es.take(j + 1)));
            }
        }
        proof {
            assert(es.take(es.len() as int) == es);
        }
        let body = join_with_newline(&out);
        string_from_chars(&body)
    }

    /// The file's path.
    pub fn path(&self) -> (r: &str)
        ensures
            r@ == self.path_view(),
    {
        self.path.as_str()
    }
}

// ---------------------------------------------------------------------
// Laws
// ---------------------------------------------------------------------

proof fn lemma_unescape_escape(v: Seq<char>)
    ensures
        unescape_spec(escape_spec(v)) == v,
    decreases v.len(),
{
    if v.len() > 0 {
        lemma_unescape_escape(v.drop_first());
        let c = v[0];
        let r = escape_spec(v.drop_first());
        if c == '\\' || c == '"' {
            let e = seq!['\\', c] + r;
            assert(e[0] == '\\');
            assert(e[1] == c);
            assert(e.skip(2) == r);
        } else {
            let e = seq![c] + r;
            assert(e[0] == c);
            assert(e.drop_first() == r);
        }
        assert(v == seq![c] + v.drop_first());
    }
}

/// Unquoting a quoted value gives the value back.
pub proof fn law_unquote_quote(v: Seq<char>)
    ensures
        unquote_spec(quote_spec(v)) == v,
{
    let q = quote_spec(v);
    let e = escape_spec(v);
    assert(q[0] == '"');
    assert(q.last() == '"');
    assert(q.subrange(1, q.len() - 1) == e);
    lemma_unescape_escape(v);
}

proof fn lemma_escape_keeps_newline_out(v: Seq<char>)
    requires
        !v.contains('\n'),
    ensures
        !escape_spec(v).contains('\n'),
    decreases v.len(),
{
    if v.len() > 0 {
        assert(!v.drop_first().contains('\n')) by {
            if v.drop_first().contains('\n') {
                let j = choose|j: int| 0 <= j < v.drop_first().len() && v.drop_first()[j] == '\n';
                assert(v[j + 1] == '\n');
            }
        }
        lemma_escape_keeps_newline_out(v.drop_first());
        assert(v[0] != '\n');
        let c = v[0];
        let head = if c == '\\' || c == '"' {
            seq!['\\', c]
        } else {
            seq![c]
        };
        let r = escape_spec(v.drop_first());
        assert(escape_spec(v) == head + r);
        if (head + r).contains('\n') {
            let j = choose|j: int| 0 <= j < (head + r).len() && (head + r)[j] == '\n';
            if j >= head.len() {
                assert(r[j - head.len()] == '\n');
            }
        }
    }
}

/// The line written for a valid key reads back as that key and value, has
/// no line feed where the value has none, and ends in no carriage return.
pub proof fn lemma_entry_line_reads_back(k: Seq<char>, v: Seq<char>)
    requires
        valid_key(k),
    ensures
        parse_key_spec(entry_line(k, v)) == Some(k),
        line_entry(entry_line(k, v)) == Some((k, v)),
        strip_cr(entry_line(k, v)) == entry_line(k, v),
        !v.contains('\n') ==> !entry_line(k, v).contains('\n'),
{
    let q = quote_spec(v);
    let l = entry_line(k, v);
    assert(l == k + seq!['='] + q);
    assert(l[0] == k[0]);
    crate::text::lemma_trim_start_at(l, 0);
    assert(l.skip(0) == l);
    assert forall|j: int| 0 <= j < k.len() implies l[j] != '=' by {
        assert(l[j] == k[j]);
        if j > 0 {
            assert(is_key_char(k[j]));
        }
    }
    assert(l[k.len() as int] == '=');
    crate::text::lemma_find_at(l, '=', k.len() as int);
    assert(l.take(k.len() as int) == k);
    assert(l.skip(k.len() as int + 1) == q);
    crate::text::lemma_trim_start_at(k, 0);
    assert(k.skip(0) == k);
    assert(!crate::text::is_white_space(k.last())) by {
        if k.len() > 1 {
            assert(is_key_char(k[k.len() - 1]));
        }
    }
    crate::text::lemma_trim_end_at(k, k.len() as int);
    assert(k.take(k.len() as int) == k);
    assert(q[0] == '"');
    assert(q.last() == '"');
    crate::text::lemma_trim_start_at(q, 0);
    assert(q.skip(0) == q);
    crate::text::lemma_trim_end_at(q, q.len() as int);
    assert(q.take(q.len() as int) == q);
    law_unquote_quote(v);
    assert(l.last() == '"');
    if !v.contains('\n') {
        lemma_escape_keeps_newline_out(v);
        if l.contains('\n') {
            let j = choose|j: int| 0 <= j < l.len() && l[j] == '\n';
            if j < k.len() {
                assert(l[j] == k[j]);
                if j > 0 {
                    assert(is_key_char(k[j]));
                }
            } else if j > k.len() && j < l.len() - 1 {
                assert(escape_spec(v)[j - k.len() - 2] == l[j]);
            }
        }
    }
}

proof fn lemma_trim_start_push_space(p: Seq<char>, c: char)
    requires
        crate::text::is_white_space(c),
    ensures
        trim_start_spec(p.push(c)) == if trim_start_spec(p).len() == 0 {
            Seq::<char>::empty()
        } else {
            trim_start_spec(p).push(c)
        },
    decreases p.len(),
{
    if p.len() == 0 {
        assert(p.push(c).drop_first() == Seq::<char>::empty());
        assert(p.push(c)[0] == c);
        assert(trim_start_spec(Seq::<char>::empty()) == Seq::<char>::empty());
        assert(trim_start_spec(p) == p);
    } else if crate::text::is_white_space(p[0]) {
        assert(p.push(c).drop_first() == p.drop_first().push(c));
        lemma_trim_start_push_space(p.drop_first(), c);
    } else {
        assert(p.push(c)[0] == p[0]);
    }
}

proof fn lemma_find_push(s: Seq<char>, c: char, x: char)
    requires
        c != x,
    ensures
        find_spec(s.push(c), x) == find_spec(s, x),
{
    lemma_find(s, x);
    match find_spec(s, x) {
        Some(i) => {
            assert forall|j: int| 0 <= j < i implies s.push(c)[j] != x by {
                assert(s.push(c)[j] == s[j]);
            }
            assert(s.push(c)[i] == s[i]);
            crate::text::lemma_find_at(s.push(c), x, i);
        },
        None => {
            assert forall|j: int| 0 <= j < s.len() implies s.push(c)[j] != x by {
                assert(s.push(c)[j] == s[j]);
            }
            crate::text::lemma_find_at(s.push(c), x, s.len() as int + 1);
        },
    }
}

/// A carriage return at the end of a line does not change the key it assigns.
pub proof fn lemma_strip_cr_key(l: Seq<char>)
    ensures
        parse_key_spec(strip_cr(l)) == parse_key_spec(l),
{
    if l.len() > 0 && l.last() == '\r' {
        let p = l.drop_last();
        assert(l == p.push('\r'));
        lemma_trim_start_push_space(p, '\r');
        let tp = trim_start_spec(p);
        if tp.len() > 0 {
            let t = tp.push('\r');
            assert(t[0] == tp[0]);
            lemma_find_push(tp, '\r', '=');
            lemma_find(tp, '=');
            match find_spec(tp, '=') {
                Some(i) => {
                    assert(t.take(i) == tp.take(i));
                },
                None => {},
            }
        }
    }
}

/// The pair `e`, where there is one, agrees with `m`.
pub open spec fn agrees_with(e: Option<(Seq<char>, Seq<char>)>, m: Map<Seq<char>, Seq<char>>) -> bool {
    match e {
        Some(p) => m.contains_key(p.0) && m[p.0] == p.1,
        None => true,
    }
}

/// The pair `e` names `k`.
pub open spec fn names_key(e: Option<(Seq<char>, Seq<char>)>, k: Seq<char>) -> bool {
    match e {
        Some(p) => p.0 == k,
        None => false,
    }
}

/// The keys that some line of `ls` contributes.
pub open spec fn covered_keys(ls: Seq<Seq<char>>) -> Set<Seq<char>> {
    Set::new(
        |k: Seq<char>|
            exists|i: int| 0 <= i < ls.len() && names_key(#[trigger] line_entry(ls[i]), k),
    )
}

/// Lines whose pairs all agree with `m` read back as `m` on the keys they name.
proof fn lemma_load_agrees(ls: Seq<Seq<char>>, m: Map<Seq<char>, Seq<char>>)
    requires
        forall|i: int| 0 <= i < ls.len() ==> agrees_with(#[trigger] line_entry(ls[i]), m),
    ensures
        load_data(ls).dom() == covered_keys(ls),
        forall|k: Seq<char>| #[trigger] load_data(ls).contains_key(k) ==> load_data(ls)[k] == m[k],
    decreases ls.len(),
{
    if ls.len() == 0 {
        assert(load_data(ls).dom() =~= covered_keys(ls));
    } else {
        let p = ls.drop_last();
        assert forall|i: int| 0 <= i < p.len() implies agrees_with(#[trigger] line_entry(p[i]), m) by {
            assert(p[i] == ls[i]);
        }
        lemma_load_agrees(p, m);
        let last = ls[ls.len() - 1];
        assert(ls.last() == last);
        assert(load_data(ls).dom() =~= covered_keys(ls)) by {
            assert forall|k: Seq<char>| #[trigger]
                covered_keys(ls).contains(k) implies load_data(ls).contains_key(k) by {
                let i = choose|i: int| 0 <= i < ls.len() && names_key(#[trigger] line_entry(ls[i]), k);
                if i < p.len() {
                    assert(p[i] == ls[i]);
                    assert(covered_keys(p).contains(k));
                }
            }
            assert forall|k: Seq<char>| #[trigger]
                load_data(ls).contains_key(k) implies covered_keys(ls).contains(k) by {
                if load_data(p).contains_key(k) {
                    assert(covered_keys(p).contains(k));
                    let i = choose|i: int| 0 <= i < p.len() && names_key(#[trigger] line_entry(p[i]), k);
                    assert(p[i] == ls[i]);
                } else {
                    assert(line_entry(ls[ls.len() - 1]) is Some);
                }
            }
        }
    }
}

/// Every line appended by `render` is the line of some entry.
proof fn lemma_appended_from_entries(lines: Seq<Seq<char>>, es: Seq<(Seq<char>, Seq<char>)>)
    ensures
        forall|p: int|
            0 <= p < appended_lines(lines, es).len() ==> exists|j: int|
                0 <= j < es.len() && #[trigger] appended_lines(lines, es)[p] == entry_line(
                    es[j].0,
                    es[j].1,
                ),
    decreases es.len(),
{
    if es.len() > 0 {
        let d = es.drop_last();
        lemma_appended_from_entries(lines, d);
        let a = appended_lines(lines, es);
        assert forall|p: int| 0 <= p < a.len() implies exists|j: int|
            0 <= j < es.len() && #[trigger] a[p] == entry_line(es[j].0, es[j].1) by {
            if p < appended_lines(lines, d).len() {
                assert(a[p] == appended_lines(lines, d)[p]);
                let j = choose|j: int|
                    0 <= j < d.len() && #[trigger] appended_lines(lines, d)[p] == entry_line(
                        d[j].0,
                        d[j].1,
                    );
                assert(d[j] == es[j]);
            } else {
                assert(a[p] == entry_line(es[es.len() - 1].0, es[es.len() - 1].1));
            }
        }
    }
}

/// An entry that no line assigns gets a line of its own.
proof fn lemma_appended_has_entry(
    lines: Seq<Seq<char>>,
    es: Seq<(Seq<char>, Seq<char>)>,
    j: int,
)
    requires
        0 <= j < es.len(),
        !has_key_line(lines, es[j].0),
    ensures
        exists|p: int|
            0 <= p < appended_lines(lines, es).len() && #[trigger] appended_lines(lines, es)[p]
                == entry_line(es[j].0, es[j].1),
    decreases es.len(),
{
    let d = es.drop_last();
    let a = appended_lines(lines, es);
    if j < es.len() - 1 {
        assert(d[j] == es[j]);
        lemma_appended_has_entry(lines, d, j);
        let p = choose|p: int|
            0 <= p < appended_lines(lines, d).len() && #[trigger] appended_lines(lines, d)[p]
                == entry_line(d[j].0, d[j].1);
        assert(a[p] == appended_lines(lines, d)[p]);
    } else {
        assert(a[appended_lines(lines, d).len() as int] == entry_line(es[j].0, es[j].1));
    }
}

impl DotEnvStore {
    /// Reading back what `render` writes gives the same pairs, where every
    /// key is a valid key and no value holds a line feed.
    pub proof fn law_reload_rendered(self)
        requires
            self.wf(),
            forall|k: Seq<char>| #[trigger]
                self.data().contains_key(k) ==> valid_key(k) && !self.data()[k].contains('\n'),
        ensures
            load_data(lines_spec(render_spec(self.lines_view(), self.entries_view())))
                == self.data(),
    {
        let ls = self.lines_view();
        let es = self.entries_view();
        let m = self.data();
        lemma_sorted_unique(es);
        lemma_entries_map(es);
        let nl = rendered_lines(ls, es);
        let ap = appended_lines(ls, es);
        let rw = ls.map_values(|l: Seq<char>| rewrite_line(l, m));
        assert(nl == rw + ap);
        lemma_appended_from_entries(ls, es);
        // Each rewritten line holds no line feed, and reads back as its
        // entry or as no entry.
        assert forall|i: int| 0 <= i < ls.len() implies {
            &&& !(#[trigger] rw[i]).contains('\n')
            &&& agrees_with(line_entry(strip_cr(rw[i])), m)
            &&& parse_key_spec(ls[i]) matches Some(k) ==> line_entry(strip_cr(rw[i])) == Some((k, m[k]))
        } by {
            assert(!ls[i].contains('\n'));
            match parse_key_spec(ls[i]) {
                Some(k) => {
                    assert(m.contains_key(k));
                    lemma_entry_line_reads_back(k, m[k]);
                    assert(rw[i] == entry_line(k, m[k]));
                },
                None => {
                    assert(rw[i] == ls[i]);
                    lemma_strip_cr_key(ls[i]);
                },
            }
        }
        assert forall|p: int| 0 <= p < ap.len() implies {
            &&& !(#[trigger] ap[p]).contains('\n')
            &&& line_entry(strip_cr(ap[p])) is Some
            &&& agrees_with(line_entry(strip_cr(ap[p])), m)
        } by {
            let j = choose|j: int| 0 <= j < es.len() && #[trigger] ap[p] == entry_line(es[j].0, es[j].1);
            assert(m.contains_key(es[j].0));
            assert(m[es[j].0] == es[j].1);
            lemma_entry_line_reads_back(es[j].0, es[j].1);
        }
        if nl.len() == 0 {
            assert(ls.len() == 0);
            assert(es.len() == 0) by {
                if es.len() > 0 {
                    lemma_appended_has_entry(ls, es, 0);
                }
            }
            assert(join_lines(nl) + seq!['\n'] == seq!['\n']);
            let body = seq!['\n'];
            crate::text::lemma_find_at(body, '\n', 0);
            assert(body.take(0) == Seq::<char>::empty());
            assert(body.skip(1) == Seq::<char>::empty());
            assert(strip_cr(Seq::<char>::empty()) == Seq::<char>::empty());
            assert(lines_spec(Seq::<char>::empty()) == Seq::<Seq<char>>::empty());
            assert(lines_spec(body) == seq![strip_cr(body.take(0))] + lines_spec(body.skip(1)));
            assert(lines_spec(body) =~= seq![Seq::<char>::empty()]);
            let e = Seq::<char>::empty();
            assert(trim_start_spec(e) == e);
            assert(line_entry(e) is None);
            assert(load_data(seq![e]) == load_data(seq![e].drop_last()));
            assert(seq![e].drop_last() == Seq::<Seq<char>>::empty());
            assert(m =~= Map::<Seq<char>, Seq<char>>::empty());
        } else {
            assert forall|i: int| 0 <= i < nl.len() implies !(#[trigger] nl[i]).contains('\n') by {
                if i < ls.len() {
                    assert(nl[i] == rw[i]);
                } else {
                    assert(nl[i] == ap[i - ls.len()]);
                }
            }
            crate::text::lemma_lines_of_joined(nl);
            let back = nl.map_values(|l: Seq<char>| strip_cr(l));
            assert forall|i: int| 0 <= i < back.len() implies agrees_with(#[trigger] line_entry(back[i]), m) by {
                if i < ls.len() {
                    assert(back[i] == strip_cr(rw[i]));
                } else {
                    assert(back[i] == strip_cr(ap[i - ls.len()]));
                }
            }
            lemma_load_agrees(back, m);
            assert forall|k: Seq<char>| m.contains_key(k) implies #[trigger] covered_keys(back).contains(k) by {
                let j = choose|j: int| 0 <= j < es.len() && es[j].0 == k;
                if has_key_line(ls, k) {
                    let i = choose|i: int| 0 <= i < ls.len() && parse_key_spec(#[trigger] ls[i]) == Some(k);
                    assert(back[i] == strip_cr(rw[i]));
                    assert(line_entry(back[i]) == Some((k, m[k])));
                } else {
                    lemma_appended_has_entry(ls, es, j);
                    let p = choose|p: int| 0 <= p < ap.len() && #[trigger] ap[p] == entry_line(es[j].0, es[j].1);
                    assert(back[ls.len() + p] == strip_cr(ap[p]));
                    lemma_entry_line_reads_back(es[j].0, es[j].1);
                    assert(line_entry(back[ls.len() + p]) is Some);
                }
            }
            assert(load_data(back) =~= m);
        }
    }
}

// ---------------------------------------------------------------------
// Rendering a rendered file again
// ---------------------------------------------------------------------

/// A stretch of `s` holds no `c` where `s` holds none.
proof fn lemma_stretch_keeps_out(s: Seq<char>, t: Seq<char>, off: int, c: char)
    requires
        0 <= off,
        off + t.len() <= s.len(),
        forall|j: int| 0 <= j < t.len() ==> #[trigger] t[j] == s[j + off],
        !s.contains(c),
    ensures
        !t.contains(c),
{
    if t.contains(c) {
        let j = choose|j: int| 0 <= j < t.len() && t[j] == c;
        assert(s[j + off] == c);
    }
}

/// Undoing escapes brings in no character that was not there.
proof fn lemma_unescape_keeps_out(s: Seq<char>, c: char)
    requires
        !s.contains(c),
    ensures
        !unescape_spec(s).contains(c),
    decreases s.len(),
{
    if s.len() > 0 {
        assert(s[0] != c);
        if s[0] == '\\' {
            if s.len() > 1 {
                assert(s[1] != c);
                lemma_stretch_keeps_out(s, s.skip(2), 2, c);
                lemma_unescape_keeps_out(s.skip(2), c);
                let u = unescape_spec(s);
                let r = unescape_spec(s.skip(2));
                assert(u == seq![s[1]] + r);
                if u.contains(c) {
                    let j = choose|j: int| 0 <= j < u.len() && u[j] == c;
                    assert(j > 0);
                    assert(r[j - 1] == c);
                }
            }
        } else {
            lemma_stretch_keeps_out(s, s.drop_first(), 1, c);
            lemma_unescape_keeps_out(s.drop_first(), c);
            let u = unescape_spec(s);
            let r = unescape_spec(s.drop_first());
            assert(u == seq![s[0]] + r);
            if u.contains(c) {
                let j = choose|j: int| 0 <= j < u.len() && u[j] == c;
                assert(j > 0);
                assert(r[j - 1] == c);
            }
        }
    }
}

/// The pair a line gives has a valid key, and its value holds no `c` where
/// the line holds none.
proof fn lemma_line_entry_keeps_out(l: Seq<char>, c: char)
    requires
        !l.contains(c),
    ensures
        line_entry(l) matches Some(e) ==> valid_key(e.0) && !e.1.contains(c),
{
    if line_entry(l) is Some {
        lemma_find(l, '=');
        let i = find_spec(l, '=')->0;
        let after = l.skip(i + 1);
        assert(split_once_spec(l, '=') == Some((l.take(i), after)));
        lemma_stretch_keeps_out(l, after, i + 1, c);
        let k1 = lemma_trim_start_suffix(after);
        let ts = trim_start_spec(after);
        lemma_stretch_keeps_out(after, ts, k1, c);
        let k2 = crate::text::lemma_trim_end_shape(ts);
        let t = trim_spec(after);
        assert(t == ts.take(k2));
        lemma_stretch_keeps_out(ts, t, 0, c);
        if t.len() >= 2 && t[0] == t.last() && (t[0] == '"' || t[0] == '\'') {
            let inner = t.subrange(1, t.len() - 1);
            lemma_stretch_keeps_out(t, inner, 1, c);
            lemma_unescape_keeps_out(inner, c);
        }
    }
}

/// The pairs read from lines that hold no `c` have valid keys and values
/// that hold no `c`.
proof fn lemma_load_keeps_out(ls: Seq<Seq<char>>, c: char)
    requires
        forall|i: int| 0 <= i < ls.len() ==> !(#[trigger] ls[i]).contains(c),
    ensures
        forall|k: Seq<char>| #[trigger]
            load_data(ls).contains_key(k) ==> valid_key(k) && !load_data(ls)[k].contains(c),
    decreases ls.len(),
{
    if ls.len() > 0 {
        let p = ls.drop_last();
        assert forall|i: int| 0 <= i < p.len() implies !(#[trigger] p[i]).contains(c) by {
            assert(p[i] == ls[i]);
        }
        lemma_load_keeps_out(p, c);
        assert(ls.last() == ls[ls.len() - 1]);
        lemma_line_entry_keeps_out(ls.last(), c);
        let m = load_data(p);
        assert forall|k: Seq<char>| #[trigger]
            load_data(ls).contains_key(k) implies valid_key(k) && !load_data(ls)[k].contains(c) by {
            match line_entry(ls.last()) {
                Some(e) => {
                    assert(load_data(ls) == m.insert(e.0, e.1));
                    if k != e.0 {
                        assert(m.contains_key(k));
                    }
                },
                None => {
                    assert(load_data(ls) == m);
                },
            }
        }
    }
}

/// The pairs read from the lines of a file body have valid keys and values
/// without line feeds.
pub proof fn lemma_loaded_values_one_line(body: Option<Seq<char>>)
    ensures
        forall|k: Seq<char>| #[trigger]
            load_data(body_lines(body)).contains_key(k) ==> valid_key(k) && !load_data(
                body_lines(body),
            )[k].contains('\n'),
{
    match body {
        Some(b) => lemma_lines_no_newline(b),
        None => {},
    }
    lemma_load_keeps_out(body_lines(body), '\n');
}

/// Entries in key order are fixed by the map they spell out.
proof fn lemma_sorted_entries_eq(a: Seq<(Seq<char>, Seq<char>)>, b: Seq<(Seq<char>, Seq<char>)>)
    requires
        sorted_keys(a),
        sorted_keys(b),
        entries_map(a) == entries_map(b),
    ensures
        a == b,
    decreases a.len(),
{
    lemma_sorted_unique(a);
    lemma_sorted_unique(b);
    lemma_entries_map(a);
    lemma_entries_map(b);
    if a.len() == 0 || b.len() == 0 {
        if b.len() > 0 {
            assert(entries_map(b).contains_key(b[0].0));
        }
        if a.len() > 0 {
            assert(entries_map(a).contains_key(a[0].0));
        }
        assert(a =~= b);
    } else {
        let na = a.len() - 1;
        let nb = b.len() - 1;
        let ka = a[na].0;
        let kb = b[nb].0;
        assert(entries_map(a).contains_key(ka));
        assert(entries_map(b).contains_key(kb));
        let j = choose|j: int| 0 <= j < b.len() && b[j].0 == ka;
        let i = choose|i: int| 0 <= i < a.len() && a[i].0 == kb;
        if ka != kb {
            assert(j < nb);
            assert(lex_lt(b[j].0, b[nb].0));
            assert(i < na);
            assert(lex_lt(a[i].0, a[na].0));
            lemma_lex_transitive(ka, kb, ka);
            lemma_lex_irreflexive(ka);
        }
        assert(a[na].1 == b[nb].1);
        let da = a.drop_last();
        let db = b.drop_last();
        assert forall|x: int, y: int| 0 <= x < y < da.len() implies lex_lt(
            #[trigger] da[x].0,
            #[trigger] da[y].0,
        ) by {
            assert(da[x] == a[x]);
            assert(da[y] == a[y]);
        }
        assert forall|x: int, y: int| 0 <= x < y < db.len() implies lex_lt(
            #[trigger] db[x].0,
            #[trigger] db[y].0,
        ) by {
            assert(db[x] == b[x]);
            assert(db[y] == b[y]);
        }
        lemma_sorted_unique(da);
        lemma_sorted_unique(db);
        lemma_entries_map(da);
        lemma_entries_map(db);
        assert(!entries_map(da).contains_key(ka)) by {
            if entries_map(da).contains_key(ka) {
                let x = choose|x: int| 0 <= x < da.len() && da[x].0 == ka;
                assert(da[x] == a[x]);
            }
        }
        assert(!entries_map(db).contains_key(kb)) by {
            if entries_map(db).contains_key(kb) {
                let x = choose|x: int| 0 <= x < db.len() && db[x].0 == kb;
                assert(db[x] == b[x]);
            }
        }
        assert(a.last() == a[na]);
        assert(b.last() == b[nb]);
        assert(entries_map(da) =~= entries_map(a).remove(ka));
        assert(entries_map(db) =~= entries_map(b).remove(kb));
        lemma_sorted_entries_eq(da, db);
        assert(a =~= da.push(a[na]));
        assert(b =~= db.push(b[nb]));
    }
}

/// No line is appended for entries whose keys all have a line.
proof fn lemma_appended_empty(lines: Seq<Seq<char>>, es: Seq<(Seq<char>, Seq<char>)>)
    requires
        forall|j: int| 0 <= j < es.len() ==> has_key_line(lines, (#[trigger] es[j]).0),
    ensures
        appended_lines(lines, es) == Seq::<Seq<char>>::empty(),
    decreases es.len(),
{
    if es.len() > 0 {
        let d = es.drop_last();
        assert forall|j: int| 0 <= j < d.len() implies has_key_line(lines, (#[trigger] d[j]).0) by {
            assert(d[j] == es[j]);
        }
        lemma_appended_empty(lines, d);
        assert(es.last() == es[es.len() - 1]);
        assert(has_key_line(lines, es.last().0));
        assert(appended_lines(lines, es) =~= Seq::<Seq<char>>::empty());
    }
}

/// The lines of `ls` that assign no key end in no carriage return.
pub open spec fn plain_lines_end_without_cr(ls: Seq<Seq<char>>) -> bool {
    forall|i: int|
        0 <= i < ls.len() && parse_key_spec(#[trigger] ls[i]) is None ==> strip_cr(ls[i]) == ls[i]
}

impl DotEnvStore {
    /// A store read back from the text that `render` writes, holding the
    /// same pairs, renders that same text again, where every key is a valid
    /// key, no value holds a line feed and no line that assigns no key ends
    /// in a carriage return.
    pub proof fn law_render_again(self, other: DotEnvStore)
        requires
            self.wf(),
            other.wf(),
            forall|k: Seq<char>| #[trigger]
                self.data().contains_key(k) ==> valid_key(k) && !self.data()[k].contains('\n'),
            plain_lines_end_without_cr(self.lines_view()),
            other.lines_view() == lines_spec(render_spec(self.lines_view(), self.entries_view())),
            other.data() == self.data(),
        ensures
            render_spec(other.lines_view(), other.entries_view()) == render_spec(
                self.lines_view(),
                self.entries_view(),
            ),
    {
        let ls = self.lines_view();
        let es = self.entries_view();
        let m = self.data();
        lemma_sorted_unique(es);
        lemma_entries_map(es);
        lemma_sorted_entries_eq(other.entries_view(), es);
        let nl = rendered_lines(ls, es);
        let ap = appended_lines(ls, es);
        let rw = ls.map_values(|l: Seq<char>| rewrite_line(l, m));
        assert(nl == rw + ap);
        lemma_appended_from_entries(ls, es);
        assert forall|i: int| 0 <= i < nl.len() implies {
            &&& !(#[trigger] nl[i]).contains('\n')
            &&& strip_cr(nl[i]) == nl[i]
            &&& rewrite_line(nl[i], m) == nl[i]
        } by {
            if i < ls.len() {
                assert(nl[i] == rw[i]);
                assert(!ls[i].contains('\n'));
                match parse_key_spec(ls[i]) {
                    Some(k) => {
                        assert(m.contains_key(k));
                        lemma_entry_line_reads_back(k, m[k]);
                        assert(rw[i] == entry_line(k, m[k]));
                    },
                    None => {
                        assert(rw[i] == ls[i]);
                    },
                }
            } else {
                let p = i - ls.len();
                assert(nl[i] == ap[p]);
                let j = choose|j: int| 0 <= j < es.len() && #[trigger] ap[p] == entry_line(es[j].0, es[j].1);
                assert(m.contains_key(es[j].0));
                assert(m[es[j].0] == es[j].1);
                lemma_entry_line_reads_back(es[j].0, es[j].1);
            }
        }
        assert forall|j: int| 0 <= j < es.len() implies has_key_line(nl, (#[trigger] es[j]).0) by {
            let k = es[j].0;
            assert(m.contains_key(k));
            if has_key_line(ls, k) {
                let i = choose|i: int| 0 <= i < ls.len() && parse_key_spec(#[trigger] ls[i]) == Some(k);
                assert(nl[i] == rw[i]);
                lemma_entry_line_reads_back(k, m[k]);
                assert(parse_key_spec(nl[i]) == Some(k));
            } else {
                lemma_appended_has_entry(ls, es, j);
                let p = choose|p: int| 0 <= p < ap.len() && #[trigger] ap[p] == entry_line(es[j].0, es[j].1);
                assert(nl[ls.len() + p] == ap[p]);
                lemma_entry_line_reads_back(es[j].0, es[j].1);
                assert(parse_key_spec(nl[ls.len() + p]) == Some(k));
            }
        }
        if nl.len() == 0 {
            assert(ls.len() == 0);
            assert(es.len() == 0) by {
                if es.len() > 0 {
                    lemma_appended_has_entry(ls, es, 0);
                }
            }
            let body = seq!['\n'];
            assert(join_lines(nl) + seq!['\n'] == body);
            crate::text::lemma_find_at(body, '\n', 0);
            let e = Seq::<char>::empty();
            assert(body.take(0) == e);
            assert(body.skip(1) == e);
            assert(strip_cr(e) == e);
            assert(lines_spec(e) == Seq::<Seq<char>>::empty());
            assert(lines_spec(body) == seq![strip_cr(body.take(0))] + lines_spec(body.skip(1)));
            assert(lines_spec(body) =~= seq![e]);
            let ol = other.lines_view();
            assert(trim_start_spec(e) == e);
            assert(parse_key_spec(e) is None);
            assert(rendered_lines(ol, es) =~= seq![e]);
            assert(join_lines(seq![e]) == e);
            assert(e + seq!['\n'] =~= body);
        } else {
            crate::text::lemma_lines_of_joined(nl);
            assert(nl.map_values(|l: Seq<char>| strip_cr(l)) =~= nl);
            lemma_appended_empty(nl, es);
            assert(nl.map_values(|l: Seq<char>| rewrite_line(l, m)) =~= nl);
            assert(rendered_lines(nl, es) =~= nl);
        }
    }
}

// ---------------------------------------------------------------------
// Laws on keys
// ---------------------------------------------------------------------

/// A key is a non-empty run of ASCII letters (either case), digits and `_`
/// that does not start with a digit.
pub proof fn law_valid_key_chars(k: Seq<char>)
    ensures
        valid_key(k) <==> {
            &&& k.len() > 0
            &&& k[0] == '_' || ('a' <= k[0] && k[0] <= 'z') || ('A' <= k[0] && k[0] <= 'Z')
            &&& forall|i: int|
                1 <= i < k.len() ==> (#[trigger] k[i] == '_' || ('a' <= k[i] && k[i] <= 'z') || (
                'A' <= k[i] && k[i] <= 'Z') || ('0' <= k[i] && k[i] <= '9'))
        },
{
}

/// A line `KEY="value"` written for a key made of ASCII letters (either
/// case), digits and `_`, not starting with a digit, reads back as that key
/// holding that value, whatever the value.
pub proof fn law_key_line_reads_back(k: Seq<char>, v: Seq<char>)
    requires
        k.len() > 0,
        k[0] == '_' || ('a' <= k[0] && k[0] <= 'z') || ('A' <= k[0] && k[0] <= 'Z'),
        forall|i: int|
            1 <= i < k.len() ==> (#[trigger] k[i] == '_' || ('a' <= k[i] && k[i] <= 'z') || ('A'
                <= k[i] && k[i] <= 'Z') || ('0' <= k[i] && k[i] <= '9')),
    ensures
        parse_key_spec(k + seq!['='] + quote_spec(v)) == Some(k),
        load_data(seq![k + seq!['='] + quote_spec(v)]) == map![k => v],
{
    law_valid_key_chars(k);
    lemma_entry_line_reads_back(k, v);
    let l = entry_line(k, v);
    let ls = seq![l];
    assert(ls.drop_last() =~= Seq::<Seq<char>>::empty());
    assert(ls.last() == l);
    assert(load_data(Seq::<Seq<char>>::empty()) == Map::<Seq<char>, Seq<char>>::empty());
    assert(load_data(ls) =~= map![k => v]);
}

/// A line `KEY=value` with a plain value (no whitespace at either end, not
/// starting with a quote) reads as that key holding that value, for a key
/// made of ASCII letters (either case), digits and `_`, not starting with a
/// digit.
pub proof fn law_plain_line_reads(k: Seq<char>, v: Seq<char>)
    requires
        k.len() > 0,
        k[0] == '_' || ('a' <= k[0] && k[0] <= 'z') || ('A' <= k[0] && k[0] <= 'Z'),
        forall|i: int|
            1 <= i < k.len() ==> (#[trigger] k[i] == '_' || ('a' <= k[i] && k[i] <= 'z') || ('A'
                <= k[i] && k[i] <= 'Z') || ('0' <= k[i] && k[i] <= '9')),
        v.len() > 0 ==> !crate::text::is_white_space(v[0]) && !crate::text::is_white_space(
            v.last(),
        ) && v[0] != '"' && v[0] != '\'',
    ensures
        line_entry(k + seq!['='] + v) == Some((k, v)),
        load_data(seq![k + seq!['='] + v]) == map![k => v],
{
    law_valid_key_chars(k);
    let l = k + seq!['='] + v;
    let n = k.len() as int;
    assert forall|j: int| 0 <= j < n implies l[j] != '=' by {
        assert(l[j] == k[j]);
    }
    assert(l[n] == '=');
    crate::text::lemma_find_at(l, '=', n);
    assert(l.take(n) =~= k);
    assert(l.skip(n + 1) =~= v);
    assert(l[0] == k[0]);
    crate::text::lemma_trim_start_at(l, 0);
    assert(l.skip(0) =~= l);
    crate::text::lemma_trim_start_at(k, 0);
    assert(k.skip(0) =~= k);
    assert(!crate::text::is_white_space(k.last())) by {
        assert(k.last() == k[n - 1]);
    }
    assert(crate::text::trim_end_spec(k) == k);
    assert(trim_spec(k) == k);
    if v.len() > 0 {
        crate::text::lemma_trim_start_at(v, 0);
        assert(v.skip(0) =~= v);
        assert(crate::text::trim_end_spec(v) == v);
    } else {
        assert(trim_start_spec(v) == v);
        assert(crate::text::trim_end_spec(v) == v);
    }
    assert(trim_spec(v) == v);
    assert(unquote_spec(v) == v);
    assert(split_once_spec(l, '=') == Some((k, v)));
    assert(trim_start_spec(l) == l);
    assert(split_once_spec(trim_start_spec(l), '=') == Some((k, v)));
    assert(parse_key_spec(l) == Some(k));
    let ls = seq![l];
    assert(ls.drop_last() =~= Seq::<Seq<char>>::empty());
    assert(ls.last() == l);
    assert(load_data(Seq::<Seq<char>>::empty()) == Map::<Seq<char>, Seq<char>>::empty());
    assert(load_data(ls) =~= map![k => v]);
}

/// A line read after others sets its key to its value, whatever the
/// earlier lines held for that key; a line without a pair changes nothing.
pub proof fn law_later_line_wins(ls: Seq<Seq<char>>, l: Seq<char>)
    ensures
        line_entry(l) matches Some(e) ==> load_data(ls.push(l)) == load_data(ls).insert(e.0, e.1),
        line_entry(l) is None ==> load_data(ls.push(l)) == load_data(ls),
        line_entry(l) matches Some(e) ==> load_data(ls.push(l))[e.0] == e.1,
{
    assert(ls.push(l).drop_last() =~= ls);
    assert(ls.push(l).last() == l);
}

/// A comment line, starting with `#`, and an empty line give no pair.
pub proof fn law_comment_lines(l: Seq<char>)
    requires
        l.len() == 0 || l[0] == '#',
    ensures
        line_entry(l) is None,
{
    if l.len() > 0 {
        crate::text::lemma_trim_start_at(l, 0);
        assert(l.skip(0) =~= l);
    } else {
        assert(trim_start_spec(l) == l);
    }
}

/// A value in single quotes holding no backslash reads as the text between them.
pub proof fn law_single_quoted(v: Seq<char>)
    requires
        !v.contains('\\'),
    ensures
        unquote_spec(seq!['\''] + v + seq!['\'']) == v,
{
    let s = seq!['\''] + v + seq!['\''];
    assert(s[0] == '\'');
    assert(s.last() == '\'');
    assert(s.subrange(1, s.len() - 1) =~= v);
    lemma_unescape_plain(v);
}

proof fn lemma_unescape_plain(v: Seq<char>)
    requires
        !v.contains('\\'),
    ensures
        unescape_spec(v) == v,
    decreases v.len(),
{
    if v.len() > 0 {
        assert(v[0] != '\\');
        assert(!v.drop_first().contains('\\')) by {
            if v.drop_first().contains('\\') {
                let j = choose|j: int| 0 <= j < v.drop_first().len() && v.drop_first()[j] == '\\';
                assert(v[j + 1] == '\\');
            }
        }
        lemma_unescape_plain(v.drop_first());
        assert(seq![v[0]] + v.drop_first() =~= v);
    }
}

} // verus!
