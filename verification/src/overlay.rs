//! What the floating label and the Manage App window show and decide: the
//! label text for a result or an error, its colour, its height, the timer
//! period, the settings read from and checked for the `.env` file, and the
//! triple right-click that closes the label.

use vstd::prelude::*;

use crate::text::{
    chars_of, copy_range, join_lines, lemma_join_push, lines, lines_spec, string_from_chars,
    words_spec,
};

verus! {

/// How the label text is coloured.
#[derive(Debug, Clone, Copy, PartialEq, Eq)]
pub enum LabelKind {
    Normal,
    Busy,
    Error,
}

/// A new label text and how it is coloured.
#[derive(Debug)]
pub struct LabelUpdate {
    pub text: String,
    pub kind: LabelKind,
}

/// A colour as a Win32 `COLORREF`: red in the low byte, then green, then blue.
pub open spec fn rgb_spec(red: u8, green: u8, blue: u8) -> u32 {
    (red as int + green as int * 256 + blue as int * 65536) as u32
}

/// A colour as a Win32 `COLORREF`.
pub fn rgb(red: u8, green: u8, blue: u8) -> (c: u32)
    ensures
        c == rgb_spec(red, green, blue),
{
    let r = red as u32;
    let g = green as u32;
    let b = blue as u32;
    assert(r | (g << 8) | (b << 16) == r + g * 256 + b * 65536) by (bit_vector)
        requires
            r < 256,
            g < 256,
            b < 256,
    ;
    r | (g << 8) | (b << 16)
}

/// The low 16 bits of a message parameter.
pub fn loword(value: usize) -> (r: usize)
    ensures
        r == value % 65536,
{
    assert(value & 0xffff == value % 65536) by (bit_vector);
    value & 0xffff
}

/// The colour of the label text: green, amber or red by kind, lighter
/// while the pointer is over the label.
pub open spec fn text_color_spec(kind: LabelKind, hover: bool) -> u32 {
    match (kind, hover) {
        (LabelKind::Normal, false) => rgb_spec(0, 128, 0),
        (LabelKind::Normal, true) => rgb_spec(144, 238, 144),
        (LabelKind::Busy, false) => rgb_spec(184, 134, 11),
        (LabelKind::Busy, true) => rgb_spec(255, 215, 0),
        (LabelKind::Error, false) => rgb_spec(220, 80, 80),
        (LabelKind::Error, true) => rgb_spec(255, 140, 140),
    }
}

/// The colour of the label text.
pub fn text_color(kind: LabelKind, hover: bool) -> (c: u32)
    ensures
        c == text_color_spec(kind, hover),
{
    match (kind, hover) {
        (LabelKind::Normal, false) => rgb(0, 128, 0),
        (LabelKind::Normal, true) => rgb(144, 238, 144),
        (LabelKind::Busy, false) => rgb(184, 134, 11),
        (LabelKind::Busy, true) => rgb(255, 215, 0),
        (LabelKind::Error, false) => rgb(220, 80, 80),
        (LabelKind::Error, true) => rgb(255, 140, 140),
    }
}

/// The label's width in pixels.
pub const WINDOW_WIDTH: i32 = 520;

/// The label's least height in pixels.
pub const MIN_WINDOW_HEIGHT: i32 = 36;

/// The label's greatest height in pixels.
pub const MAX_WINDOW_HEIGHT: i32 = 360;

/// The label's height for a text of `lines` lines: 24 pixels a line and
/// 12 more, within the least and greatest heights.
pub open spec fn label_height_spec(lines: int) -> int {
    let h = (if lines < 1 {
        1
    } else {
        lines
    }) * 24 + 12;
    if h < 36 {
        36
    } else if h > 360 {
        360
    } else {
        h
    }
}

/// The label's height for `label`.
pub fn label_height(label: &str) -> (h: i32)
    ensures
        h == label_height_spec(lines_spec(label@).len() as int),
{
    let c = chars_of(label);
    let ls = lines(&c);
    proof {
        assert(ls@.len() == ls@.map_values(|l: Vec<char>| l@).len());
    }
    let n = ls.len();
    if n >= 15 {
        360
    } else {
        let lines_n: i32 = if n < 1 {
            1
        } else {
            n as i32
        };
        let h = lines_n * 24 + 12;
        if h < 36 {
            36
        } else if h > 360 {
            360
        } else {
            h
        }
    }
}

/// The timer period in milliseconds for a period in seconds: saturated
/// at `u64::MAX`, then kept within 250 ms and `u32::MAX`.
pub open spec fn timer_interval_spec(seconds: u64) -> u32 {
    let ms = if seconds * 1000 > u64::MAX {
        u64::MAX as int
    } else {
        seconds * 1000
    };
    if ms < 250 {
        250
    } else if ms > u32::MAX {
        u32::MAX
    } else {
        ms as u32
    }
}

/// The timer period in milliseconds for a period in seconds.
pub fn timer_interval_ms(seconds: u64) -> (ms: u32)
    ensures
        ms == timer_interval_spec(seconds),
{
    let ms: u64 = match seconds.checked_mul(1000) {
        Some(v) => v,
        None => 0xffff_ffff_ffff_ffff,
    };
    if ms < 250 {
        250
    } else if ms > 0xffff_ffff {
        0xffff_ffff
    } else {
        ms as u32
    }
}

/// The font height for a point size: the size kept within 8 and 72, at
/// 96 pixels an inch, negative to ask for the character height.
pub open spec fn font_height_spec(size: i32) -> i32 {
    let s = if size < 8 {
        8
    } else if size > 72 {
        72
    } else {
        size as int
    };
    (-(s * 96 / 72)) as i32
}

/// The font height for a point size.
pub fn font_height(size: i32) -> (h: i32)
    ensures
        h == font_height_spec(size),
{
    let s: i32 = if size < 8 {
        8
    } else if size > 72 {
        72
    } else {
        size
    };
    assert(0 <= s * 96 <= 72 * 96) by (nonlinear_arith)
        requires
            8 <= s <= 72,
    ;
    -(s * 96 / 72)
}

/// The next count of right clicks: one more (at most 255) where the last
/// click was less than two seconds ago, one otherwise.
pub open spec fn next_click_count_spec(count: u8, within_two_seconds: bool) -> u8 {
    if within_two_seconds {
        if count == 255 {
            255
        } else {
            (count + 1) as u8
        }
    } else {
        1
    }
}

/// The next count of right clicks.
pub fn next_click_count(count: u8, within_two_seconds: bool) -> (r: u8)
    ensures
        r == next_click_count_spec(count, within_two_seconds),
{
    if within_two_seconds {
        count.saturating_add(1)
    } else {
        1
    }
}

/// Three quick right clicks close the label.
pub fn closes_label(count: u8) -> (b: bool)
    ensures
        b == (count >= 3),
{
    count >= 3
}

// ---------------------------------------------------------------------
// Label text
// ---------------------------------------------------------------------

/// The widest label line, in characters.
pub open spec fn max_label_chars() -> nat {
    78
}

/// Breaks the current line into full-width pieces while it is too wide.
pub open spec fn split_long(wr: Seq<Seq<char>>, cur: Seq<char>) -> (Seq<Seq<char>>, Seq<char>)
    decreases cur.len(),
{
    if cur.len() > max_label_chars() {
        split_long(wr.push(cur.take(78)), cur.skip(78))
    } else {
        (wr, cur)
    }
}

/// Adds a word: to the current line after a space where it fits, on a new
/// line otherwise; then breaks what is too wide.
pub open spec fn add_word(st: (Seq<Seq<char>>, Seq<char>), w: Seq<char>) -> (
    Seq<Seq<char>>,
    Seq<char>,
) {
    let (wr, cur) = st;
    if cur.len() == 0 {
        split_long(wr, w)
    } else if cur.len() + 1 + w.len() <= max_label_chars() {
        split_long(wr, cur + seq![' '] + w)
    } else {
        split_long(wr.push(cur), w)
    }
}

/// Adds the words in order.
pub open spec fn add_words(st: (Seq<Seq<char>>, Seq<char>), words: Seq<Seq<char>>) -> (
    Seq<Seq<char>>,
    Seq<char>,
)
    decreases words.len(),
{
    if words.len() == 0 {
        st
    } else {
        add_word(add_words(st, words.drop_last()), words.last())
    }
}

/// The wrapped lines so far, with one source line wrapped after them.
pub open spec fn wrap_line(wr: Seq<Seq<char>>, line: Seq<char>) -> Seq<Seq<char>> {
    let (w2, cur) = add_words((wr, Seq::empty()), words_spec(line));
    w2.push(cur)
}

/// The source lines wrapped, one after the other.
pub open spec fn wrap_lines(ls: Seq<Seq<char>>) -> Seq<Seq<char>>
    decreases ls.len(),
{
    if ls.len() == 0 {
        Seq::empty()
    } else {
        wrap_line(wrap_lines(ls.drop_last()), ls.last())
    }
}

/// `text` wrapped to lines of at most 78 characters: each of its lines
/// filled word by word with single spaces, a word wider than a line broken
/// into full-width pieces, an empty source line kept empty.
pub open spec fn wrap_label_spec(text: Seq<char>) -> Seq<char> {
    join_lines(wrap_lines(lines_spec(text)))
}

spec fn lines_of(v: Seq<Vec<char>>) -> Seq<Seq<char>> {
    v.map_values(|l: Vec<char>| l@)
}

fn split_long_exec(wrapped: &mut Vec<Vec<char>>, cur: Vec<char>) -> (r: Vec<char>)
    ensures
        (lines_of(final(wrapped)@), r@) == split_long(lines_of(old(wrapped)@), cur@),
{
    let ghost target = split_long(lines_of(wrapped@), cur@);
    let mut cur = cur;
    while cur.len() > 78
        invariant
            split_long(lines_of(wrapped@), cur@) == target,
        decreases cur.len(),
    {
        let head = copy_range(&cur, 0, 78);
        let tail = copy_range(&cur, 78, cur.len());
        let ghost before = lines_of(wrapped@);
        proof {
            assert(head@ == cur@.take(78));
            assert(tail@ == cur@.skip(78));
        }
        wrapped.push(head);
        assert(lines_of(wrapped@) =~= before.push(head@));
        cur = tail;
    }
    cur
}

fn add_word_exec(wrapped: &mut Vec<Vec<char>>, cur: Vec<char>, word: &Vec<char>) -> (r: Vec<char>)
    ensures
        (lines_of(final(wrapped)@), r@) == add_word((lines_of(old(wrapped)@), cur@), word@),
{
    assert(word@.subrange(0, word@.len() as int) == word@);
    if cur.len() == 0 {
        split_long_exec(wrapped, copy_range(word, 0, word.len()))
    } else if cur.len() < 78 && word.len() <= 77 - cur.len() {
        let mut joined = cur;
        let ghost c0 = joined@;
        joined.push(' ');
        for i in 0..word.len()
            invariant
                joined@ == c0 + seq![' '] + word@.take(i as int),
        {
            joined.push(word[i]);
            assert(joined@ =~= c0 + seq![' '] + word@.take(i + 1));
        }
        assert(word@.take(word@.len() as int) == word@);
        split_long_exec(wrapped, joined)
    } else {
        let ghost before = lines_of(wrapped@);
        let ghost cv = cur@;
        wrapped.push(cur);
        assert(lines_of(wrapped@) =~= before.push(cv));
        split_long_exec(wrapped, copy_range(word, 0, word.len()))
    }
}

/// `text` wrapped to lines of at most 78 characters.
pub fn wrap_label_text(text: &str) -> (r: String)
    ensures
        r@ == wrap_label_spec(text@),
{
    let tc = chars_of(text);
    let source = lines(&tc);
    let ghost sv = lines_of(source@);
    let mut wrapped: Vec<Vec<char>> = Vec::new();
    for i in 0..source.len()
        invariant
            sv == lines_of(source@),
            lines_of(wrapped@) == wrap_lines(sv.take(i as int)),
    {
        let ghost start = lines_of(wrapped@);
        proof {
            assert(sv.take(i + 1).drop_last() == sv.take(i as int));
            assert(sv.take(i + 1).last() == source@[i as int]@);
        }
        let words = crate::text::split_whitespace(&source[i]);
        let ghost wv = lines_of(words@);
        let mut cur: Vec<char> = Vec::new();
        for j in 0..words.len()
            invariant
                wv == lines_of(words@),
                (lines_of(wrapped@), cur@) == add_words((start, Seq::empty()), wv.take(j as int)),
        {
            proof {
                assert(wv.take(j + 1).drop_last() == wv.take(j as int));
                assert(wv.take(j + 1).last() == words@[j as int]@);
            }
            cur = add_word_exec(&mut wrapped, cur, &words[j]);
        }
        proof {
            assert(wv.take(wv.len() as int) == wv);
        }
        let ghost before = lines_of(wrapped@);
        let ghost cv = cur@;
        wrapped.push(cur);
        assert(lines_of(wrapped@) =~= before.push(cv));
    }
    proof {
        assert(sv.take(sv.len() as int) == sv);
    }
    let mut out: Vec<char> = Vec::new();
    let ghost wl = lines_of(wrapped@);
    for i in 0..wrapped.len()
        invariant
            wl == lines_of(wrapped@),
            out@ == join_lines(wl.take(i as int)),
    {
        proof {
            lemma_join_push(wl.take(i as int), wl[i as int]);
            assert(wl.take(i + 1) == wl.take(i as int).push(wl[i as int]));
        }
        let ghost before = out@;
        if i > 0 {
            out.push('\n');
        }
        let line = &wrapped[i];
        for j in 0..line.len()
            invariant
                out@ == (if i > 0 {
                    before + seq!['\n']
                } else {
                    before
                }) + line@.take(j as int),
        {
            out.push(line[j]);
            assert(out@ =~= (if i > 0 {
                before + seq!['\n']
            } else {
                before
            }) + line@.take(j + 1));
        }
        proof {
            assert(line@.take(line@.len() as int) == line@);
            if i == 0 {
                assert(before == Seq::<char>::empty());
            }
        }
    }
    proof {
        assert(wl.take(wl.len() as int) == wl);
    }
    string_from_chars(&out)
}

/// A label line for each amount, joined by line feeds; a notice where
/// there are none; after a reset, a first line saying so.
pub open spec fn values_text_spec(labels: Seq<Seq<char>>, did_reset: bool) -> Seq<char> {
    let text = if labels.len() == 0 {
        "No unusedAmount found"@
    } else {
        join_lines(labels)
    };
    if did_reset {
        "Session reset\n"@ + text
    } else {
        text
    }
}

/// The label for fetched amounts, each already written as a label line.
pub fn values_update(labels: &Vec<String>, did_reset: bool) -> (u: LabelUpdate)
    ensures
        u.text@ == values_text_spec(labels@.map_values(|l: String| l@), did_reset),
        u.kind == LabelKind::Normal,
{
    let ghost lv = labels@.map_values(|l: String| l@);
    let mut text = if labels.len() == 0 {
        String::from_str("No unusedAmount found")
    } else {
        let mut t = String::new();
        for i in 0..labels.len()
            invariant
                lv == labels@.map_values(|l: String| l@),
                t@ == join_lines(lv.take(i as int)),
        {
            proof {
                lemma_join_push(lv.take(i as int), lv[i as int]);
                assert(lv.take(i + 1) == lv.take(i as int).push(lv[i as int]));
                reveal_strlit("\n");
            }
            if i > 0 {
                t.append("\n");
            }
            t.append(labels[i].as_str());
        }
        assert(lv.take(lv.len() as int) == lv);
        t
    };
    if did_reset {
        let mut r = String::from_str("Session reset\n");
        r.append(text.as_str());
        text = r;
    }
    LabelUpdate { text, kind: LabelKind::Normal }
}

/// The label for an error: its text wrapped, in the error colour.
pub fn error_update(text: &str) -> (u: LabelUpdate)
    ensures
        u.text@ == wrap_label_spec(text@),
        u.kind == LabelKind::Error,
{
    LabelUpdate { text: wrap_label_text(text), kind: LabelKind::Error }
}

/// The label after a fetch: the amounts' label lines, or `Error: ` and the
/// error's text.
pub fn reload_update(result: Result<&Vec<String>, &str>, did_reset: bool) -> (u: LabelUpdate)
    ensures
        match result {
            Ok(labels) => u.text@ == values_text_spec(labels@.map_values(|l: String| l@), did_reset)
                && u.kind == LabelKind::Normal,
            Err(e) => u.text@ == wrap_label_spec("Error: "@ + e@) && u.kind == LabelKind::Error,
        },
{
    match result {
        Ok(labels) => values_update(labels, did_reset),
        Err(e) => {
            let mut t = String::from_str("Error: ");
            t.append(e);
            error_update(t.as_str())
        },
    }
}

/// The label after a failed session reset: `Reset failed: ` and the error's text.
pub fn reset_failure_update(error: &str) -> (u: LabelUpdate)
    ensures
        u.text@ == wrap_label_spec("Reset failed: "@ + error@),
        u.kind == LabelKind::Error,
{
    let mut t = String::from_str("Reset failed: ");
    t.append(error);
    error_update(t.as_str())
}

/// What a fetch does: reload the amounts, or reset the session first.
#[derive(Debug, Clone, Copy, PartialEq, Eq)]
pub enum FetchAction {
    Reload,
    Reset,
}

/// Whether to start a fetch, and the label to show meanwhile.
#[derive(Debug)]
pub struct ActionStart {
    pub label: Option<LabelUpdate>,
    pub spawn: bool,
}

/// Starting a fetch: while one runs, no second one, and `Busy...` where a
/// busy text was asked for; otherwise a fetch, showing the busy text where
/// one was given.
pub fn start_action(fetching: bool, busy_text: Option<&str>) -> (r: ActionStart)
    ensures
        r.spawn == !fetching,
        busy_text is None ==> r.label is None,
        busy_text matches Some(t) ==> (r.label matches Some(u) && u.kind == LabelKind::Busy
            && u.text@ == if fetching {
            "Busy..."@
        } else {
            t@
        }),
{
    match busy_text {
        Some(t) => {
            let text = if fetching {
                String::from_str("Busy...")
            } else {
                String::from_str(t)
            };
            ActionStart { label: Some(LabelUpdate { text, kind: LabelKind::Busy }), spawn: !fetching }
        },
        None => ActionStart { label: None, spawn: !fetching },
    }
}

/// A choice of the tray menu.
#[derive(Debug, Clone, Copy, PartialEq, Eq)]
pub enum TrayAction {
    Manage,
    Reload,
    Reset,
    Quit,
}

pub const MENU_MANAGE: usize = 1001;
pub const MENU_RELOAD: usize = 1002;
pub const MENU_RESET: usize = 1003;
pub const MENU_QUIT: usize = 1004;

/// The tray menu's choice with command identifier `command`.
pub fn tray_action(command: usize) -> (r: Option<TrayAction>)
    ensures
        command == MENU_MANAGE ==> r == Some(TrayAction::Manage),
        command == MENU_RELOAD ==> r == Some(TrayAction::Reload),
        command == MENU_RESET ==> r == Some(TrayAction::Reset),
        command == MENU_QUIT ==> r == Some(TrayAction::Quit),
        !(MENU_MANAGE <= command <= MENU_QUIT) ==> r is None,
{
    if command == MENU_MANAGE {
        Some(TrayAction::Manage)
    } else if command == MENU_RELOAD {
        Some(TrayAction::Reload)
    } else if command == MENU_RESET {
        Some(TrayAction::Reset)
    } else if command == MENU_QUIT {
        Some(TrayAction::Quit)
    } else {
        None
    }
}

/// Every line of a wrapped label holds at most 78 characters.
pub proof fn law_wrapped_lines_fit(text: Seq<char>)
    ensures
        forall|i: int|
            0 <= i < wrap_lines(lines_spec(text)).len() ==> (#[trigger] wrap_lines(
                lines_spec(text),
            )[i]).len() <= max_label_chars(),
{
    lemma_wrap_lines_fit(lines_spec(text));
}

spec fn all_fit(wr: Seq<Seq<char>>) -> bool {
    forall|i: int| 0 <= i < wr.len() ==> (#[trigger] wr[i]).len() <= max_label_chars()
}

proof fn lemma_split_long_fits(wr: Seq<Seq<char>>, cur: Seq<char>)
    requires
        all_fit(wr),
    ensures
        all_fit(split_long(wr, cur).0),
        split_long(wr, cur).1.len() <= max_label_chars(),
    decreases cur.len(),
{
    if cur.len() > max_label_chars() {
        let w2 = wr.push(cur.take(78));
        assert forall|i: int| 0 <= i < w2.len() implies (#[trigger] w2[i]).len() <= max_label_chars() by {
            if i < wr.len() {
                assert(w2[i] == wr[i]);
            }
        }
        lemma_split_long_fits(w2, cur.skip(78));
    }
}

proof fn lemma_add_words_fit(st: (Seq<Seq<char>>, Seq<char>), words: Seq<Seq<char>>)
    requires
        all_fit(st.0),
        st.1.len() <= max_label_chars(),
    ensures
        all_fit(add_words(st, words).0),
        add_words(st, words).1.len() <= max_label_chars(),
    decreases words.len(),
{
    if words.len() > 0 {
        lemma_add_words_fit(st, words.drop_last());
        let (wr, cur) = add_words(st, words.drop_last());
        let w = words.last();
        if cur.len() == 0 {
            lemma_split_long_fits(wr, w);
        } else if cur.len() + 1 + w.len() <= max_label_chars() {
            lemma_split_long_fits(wr, cur + seq![' '] + w);
        } else {
            let w2 = wr.push(cur);
            assert forall|i: int| 0 <= i < w2.len() implies (#[trigger] w2[i]).len() <= max_label_chars() by {
                if i < wr.len() {
                    assert(w2[i] == wr[i]);
                }
            }
            lemma_split_long_fits(w2, w);
        }
    }
}

proof fn lemma_wrap_lines_fit(ls: Seq<Seq<char>>)
    ensures
        all_fit(wrap_lines(ls)),
    decreases ls.len(),
{
    if ls.len() > 0 {
        lemma_wrap_lines_fit(ls.drop_last());
        let prev = wrap_lines(ls.drop_last());
        lemma_add_words_fit((prev, Seq::empty()), words_spec(ls.last()));
        let (w2, cur) = add_words((prev, Seq::empty()), words_spec(ls.last()));
        let r = w2.push(cur);
        assert forall|i: int| 0 <= i < r.len() implies (#[trigger] r[i]).len() <= max_label_chars() by {
            if i < w2.len() {
                assert(r[i] == w2[i]);
            }
        }
    }
}

/// The label mode where the Win32 label is not available: it refuses to start.
pub fn run_gui(env_path: &str, interval_seconds: u64) -> (r: Result<(), crate::client::MciError>)
    ensures
        r matches Err(crate::client::MciError::Gui(m)) && m@
            == "GUI mode is currently implemented for Windows only."@,
{
    Err(crate::client::MciError::Gui(String::from_str("GUI mode is currently implemented for Windows only.")))
}

} // verus!
