//! The renderer: turns the filtered page, selection state and decoration
//! into the exact text handed to the line editor, and keeps the overlay
//! panel pinned while the list height changes.

use crate::pager::{sat_sub, sat_sub_usize, UiState};
use crate::suggest::{blank_lines, ModuleHint};
use crate::text::{
    chars_of, first_token, first_token_chars, is_ws, lemma_skip_one, push_char, string_of,
    take_nonws, views_of,
};
use vstd::prelude::*;

verus! {

broadcast use crate::text::lemma_views_of_len, crate::text::lemma_views_of_index,
    crate::text::lemma_block_views_len, crate::text::lemma_block_views_index;

/// The text split into lines: pieces cut at line breaks, a carriage
/// return before each break removed, the final empty piece after a
/// trailing line break dropped; a final piece not ending in a break is
/// kept as written.
pub open spec fn split_lines(s: Seq<char>) -> Seq<Seq<char>>
    decreases s.len(),
    via split_lines_decreases
{
    if s.len() == 0 {
        Seq::empty()
    } else {
        match crate::graphics::find_from(s, 0, '\n') {
            Some(j) => {
                let piece = drop_cr(s.subrange(0, j));
                let rest = s.skip(j + 1);
                if rest.len() == 0 {
                    seq![piece]
                } else {
                    seq![piece] + split_lines(rest)
                }
            },
            None => seq![s],
        }
    }
}

#[via_fn]
proof fn split_lines_decreases(s: Seq<char>) {
    crate::graphics::lemma_find_from_bounds(s, 0, '\n');
}

/// A sequence with one trailing carriage return removed.
pub open spec fn drop_cr(s: Seq<char>) -> Seq<char> {
    if s.len() > 0 && s[s.len() - 1] == '\r' {
        s.drop_last()
    } else {
        s
    }
}

/// Splits text into lines.
pub fn split_lines_exec(s: &str) -> (r: Vec<String>)
    ensures
        views_of(r@) == split_lines(s@),
{
    let chars = chars_of(s);
    let mut r: Vec<String> = Vec::new();
    let mut cur = sub_chars(&chars, 0, chars.len());
    proof {
        assert(cur@ =~= s@);
        assert(views_of(r@) =~= Seq::<Seq<char>>::empty());
    }
    loop
        invariant
            split_lines(s@) == views_of(r@) + split_lines(cur@),
        decreases cur@.len() + 1,
    {
        if cur.len() == 0 {
            proof {
                assert(views_of(r@) =~= split_lines(s@));
            }
            return r;
        }
        match crate::graphics::find_from_exec(&cur, 0, '\n') {
            Some(j) => {
                let piece = drop_cr_exec(&sub_chars(&cur, 0, j));
                let rest = sub_chars(&cur, j + 1, cur.len());
                proof {
                    assert(rest@ =~= cur@.skip(j as int + 1));
                    assert(views_of(r@.push(piece)) =~= views_of(r@) + seq![piece@]);
                }
                r.push(piece);
                proof {
                    if rest@.len() == 0 {
                        assert(split_lines(rest@) =~= Seq::<Seq<char>>::empty());
                        assert(views_of(r@) + split_lines(rest@) =~= split_lines(s@));
                    } else {
                        assert(views_of(r@) + split_lines(rest@) =~= split_lines(s@));
                    }
                }
                cur = rest;
            },
            None => {
                let piece = string_of(&cur);
                proof {
                    assert(views_of(r@.push(piece)) =~= views_of(r@) + seq![piece@]);
                }
                r.push(piece);
                proof {
                    assert(views_of(r@) =~= split_lines(s@));
                }
                return r;
            },
        }
    }
}

fn sub_chars(s: &Vec<char>, from: usize, to: usize) -> (r: Vec<char>)
    requires
        from <= to <= s@.len(),
    ensures
        r@ == s@.subrange(from as int, to as int),
{
    let mut r: Vec<char> = Vec::new();
    let mut k: usize = from;
    while k < to
        invariant
            from <= k <= to <= s@.len(),
            r@ == s@.subrange(from as int, k as int),
        decreases to - k,
    {
        r.push(s[k]);
        k = k + 1;
        proof {
            assert(r@ =~= s@.subrange(from as int, k as int));
        }
    }
    r
}

fn drop_cr_exec(v: &Vec<char>) -> (r: String)
    ensures
        r@ == drop_cr(v@),
{
    let n = if v.len() > 0 && v[v.len() - 1] == '\r' {
        v.len() - 1
    } else {
        v.len()
    };
    let kept = sub_chars(v, 0, n);
    proof {
        assert(kept@ =~= drop_cr(v@));
    }
    string_of(&kept)
}

/// The number of lines `split_lines` yields.
pub open spec fn line_count(s: Seq<char>) -> nat {
    split_lines(s).len()
}

/// Counts the lines of a text.
pub fn line_count_exec(s: &str) -> (r: usize)
    ensures
        r == line_count(s@),
{
    let lines = split_lines_exec(s);
    lines.len()
}

/// The decimal notation of a number.
pub open spec fn dec_of(n: nat) -> Seq<char>
    decreases n,
{
    if n < 10 {
        seq![crate::dispatch::hex_digit(n)]
    } else {
        dec_of(n / 10) + seq![crate::dispatch::hex_digit(n % 10)]
    }
}

/// Writes a number in decimal.
pub fn usize_to_string(n: usize) -> (r: String)
    ensures
        r@ == dec_of(n as nat),
    decreases n,
{
    if n < 10 {
        let mut s = String::new();
        push_char(&mut s, digit_char(n));
        proof {
            assert(s@ =~= seq![crate::dispatch::hex_digit(n as nat)]);
        }
        s
    } else {
        let mut s = usize_to_string(n / 10);
        push_char(&mut s, digit_char(n % 10));
        proof {
            assert(s@ =~= dec_of((n / 10) as nat) + seq![
                crate::dispatch::hex_digit((n % 10) as nat),
            ]);
        }
        s
    }
}

fn digit_char(d: usize) -> (c: char)
    requires
        d < 10,
    ensures
        c == crate::dispatch::hex_digit(d as nat),
{
    if d == 0 {
        '0'
    } else if d == 1 {
        '1'
    } else if d == 2 {
        '2'
    } else if d == 3 {
        '3'
    } else if d == 4 {
        '4'
    } else if d == 5 {
        '5'
    } else if d == 6 {
        '6'
    } else if d == 7 {
        '7'
    } else if d == 8 {
        '8'
    } else {
        '9'
    }
}

/// `n` spaces.
pub open spec fn spaces(n: nat) -> Seq<char>
    decreases n,
{
    if n == 0 {
        Seq::empty()
    } else {
        spaces((n - 1) as nat) + seq![' ']
    }
}

/// A token padded with spaces on the right up to the given width.
pub open spec fn pad_to(tok: Seq<char>, width: nat) -> Seq<char> {
    if tok.len() >= width {
        tok
    } else {
        tok + spaces((width - tok.len()) as nat)
    }
}

fn pad_to_exec(tok: &Vec<char>, width: usize) -> (r: Vec<char>)
    ensures
        r@ == pad_to(tok@, width as nat),
{
    let mut r = sub_chars(tok, 0, tok.len());
    proof {
        assert(r@ =~= tok@);
    }
    if tok.len() >= width {
        return r;
    }
    let mut k: usize = 0;
    let pad = width - tok.len();
    while k < pad
        invariant
            k <= pad,
            pad == width - tok@.len(),
            tok@.len() < width,
            r@ == tok@ + spaces(k as nat),
        decreases pad - k,
    {
        r.push(' ');
        k = k + 1;
        proof {
            assert(r@ =~= tok@ + spaces(k as nat));
        }
    }
    r
}

/// The whitespace-delimited tokens of the input.
pub open spec fn tokens_spec(s: Seq<char>) -> Seq<Seq<char>>
    decreases s.len(),
    via tokens_spec_decreases
{
    if s.len() == 0 {
        Seq::empty()
    } else if is_ws(s[0]) {
        tokens_spec(s.skip(1))
    } else {
        seq![take_nonws(s)] + tokens_spec(s.skip(take_nonws(s).len() as int))
    }
}

#[via_fn]
proof fn tokens_spec_decreases(s: Seq<char>) {
    if s.len() > 0 && !is_ws(s[0]) {
        assert(take_nonws(s) == seq![s[0]] + take_nonws(s.skip(1)));
        lemma_take_nonws_len(s);
    }
}

proof fn lemma_take_nonws_len(s: Seq<char>)
    ensures
        take_nonws(s).len() <= s.len(),
        s.len() > 0 && !is_ws(s[0]) ==> take_nonws(s).len() >= 1,
    decreases s.len(),
{
    if s.len() > 0 && !is_ws(s[0]) {
        lemma_take_nonws_len(s.skip(1));
    }
}

/// Splits the input into whitespace-delimited tokens.
pub fn tokens_exec(s: &Vec<char>) -> (r: Vec<String>)
    ensures
        views_of(r@) == tokens_spec(s@),
{
    let mut r: Vec<String> = Vec::new();
    let mut i: usize = 0;
    proof {
        assert(s@.skip(0) =~= s@);
        assert(views_of(r@) =~= Seq::<Seq<char>>::empty());
    }
    while i < s.len()
        invariant
            i <= s@.len(),
            tokens_spec(s@) == views_of(r@) + tokens_spec(s@.skip(i as int)),
        decreases s@.len() - i,
    {
        proof {
            lemma_skip_one(s@, i as int);
        }
        if is_ws_local(s[i]) {
            i = i + 1;
        } else {
            let ghost start = i as int;
            let mut tok: Vec<char> = Vec::new();
            proof {
                assert(tok@ + take_nonws(s@.skip(start)) =~= take_nonws(s@.skip(start)));
            }
            while i < s.len() && !is_ws_local(s[i])
                invariant
                    0 <= start <= i <= s@.len(),
                    tok@.len() == i - start,
                    take_nonws(s@.skip(start)) == tok@ + take_nonws(s@.skip(i as int)),
                decreases s@.len() - i,
            {
                proof {
                    lemma_skip_one(s@, i as int);
                    assert(take_nonws(s@.skip(i as int)) == seq![s@[i as int]] + take_nonws(
                        s@.skip(i as int + 1),
                    ));
                }
                tok.push(s[i]);
                i = i + 1;
                proof {
                    assert(take_nonws(s@.skip(start)) =~= tok@ + take_nonws(
                        s@.skip(i as int),
                    ));
                }
            }
            proof {
                assert(take_nonws(s@.skip(i as int)) =~= Seq::<char>::empty());
                assert(tok@ =~= take_nonws(s@.skip(start)));
                lemma_take_nonws_len(s@.skip(start));
                assert(s@.skip(start).skip(tok@.len() as int) =~= s@.skip(i as int));
                assert(tokens_spec(s@.skip(start)) == seq![tok@] + tokens_spec(
                    s@.skip(i as int),
                ));
            }
            let tok_s = string_of(&tok);
            proof {
                assert(views_of(r@.push(tok_s)) =~= views_of(r@) + seq![tok_s@]);
            }
            r.push(tok_s);
            proof {
                assert(views_of(r@) + tokens_spec(s@.skip(i as int)) =~= tokens_spec(s@));
            }
        }
    }
    proof {
        assert(tokens_spec(s@.skip(i as int)) =~= Seq::<Seq<char>>::empty());
        assert(views_of(r@) =~= tokens_spec(s@));
    }
    r
}

fn is_ws_local(c: char) -> (r: bool)
    ensures
        r == is_ws(c),
{
    crate::text::is_ws_char(c)
}

/// Pieces joined with a single space between them.
pub open spec fn join_spaces(parts: Seq<Seq<char>>) -> Seq<char>
    decreases parts.len(),
{
    if parts.len() == 0 {
        Seq::empty()
    } else if parts.len() == 1 {
        parts[0]
    } else {
        parts[0] + seq![' '] + join_spaces(parts.skip(1))
    }
}

/// Pieces joined with the given separator between them.
pub open spec fn join_with(parts: Seq<Seq<char>>, sep: Seq<char>) -> Seq<char>
    decreases parts.len(),
{
    if parts.len() == 0 {
        Seq::empty()
    } else if parts.len() == 1 {
        parts[0]
    } else {
        parts[0] + sep + join_with(parts.skip(1), sep)
    }
}

/// Joins strings with a separator.
pub fn join_with_exec(parts: &Vec<String>, sep: &str) -> (r: String)
    ensures
        r@ == join_with(views_of(parts@), sep@),
{
    let mut r = String::new();
    if parts.len() == 0 {
        return r;
    }
    let mut i: usize = parts.len() - 1;
    let mut acc: String = parts[i].clone();
    while i > 0
        invariant
            i < parts@.len(),
            acc@ == join_with(views_of(parts@).skip(i as int), sep@),
        decreases i,
    {
        i = i - 1;
        let mut piece: String = parts[i].clone();
        piece.append(sep);
        piece.append(acc.as_str());
        proof {
            lemma_skip_one(views_of(parts@), i as int);
            if views_of(parts@).skip(i as int).len() == 1 {
            }
            assert(piece@ =~= join_with(views_of(parts@).skip(i as int), sep@));
        }
        acc = piece;
    }
    proof {
        assert(views_of(parts@).skip(0) =~= views_of(parts@));
    }
    acc
}


/// The page of the filtered list that is shown: a full page from the
/// scroll offset, or from the start when too little remains past it.
pub open spec fn window_spec(f: Seq<Seq<char>>, bench: nat, lines: nat) -> Seq<Seq<char>> {
    if bench + lines > f.len() {
        f.subrange(
            0,
            if lines >= f.len() {
                f.len() as int
            } else {
                lines as int
            },
        )
    } else {
        f.subrange(bench as int, bench + lines as int)
    }
}

/// Selects the rendered page of the filtered list.
pub fn page_window(filtered: &Vec<String>, hint_benchmark: usize, suggestion_lines: usize) -> (w:
    Vec<String>)
    ensures
        views_of(w@) == window_spec(
            views_of(filtered@),
            hint_benchmark as nat,
            suggestion_lines as nat,
        ),
{
    let n = filtered.len();
    let take_from: usize = if hint_benchmark > n || suggestion_lines > n - hint_benchmark {
        0
    } else {
        hint_benchmark
    };
    let count: usize = if hint_benchmark > n || suggestion_lines > n - hint_benchmark {
        if suggestion_lines >= n {
            n
        } else {
            suggestion_lines
        }
    } else {
        suggestion_lines
    };
    let mut w: Vec<String> = Vec::new();
    let mut i: usize = 0;
    while i < count
        invariant
            take_from + count <= filtered@.len(),
            filtered@.len() <= usize::MAX,
            i <= count,
            views_of(w@) == views_of(filtered@).subrange(
                take_from as int,
                take_from + i as int,
            ),
        decreases count - i,
    {
        w.push(filtered[take_from + i].clone());
        i = i + 1;
        proof {
            assert(views_of(w@) =~= views_of(filtered@).subrange(
                take_from as int,
                take_from + i as int,
            ));
        }
    }
    proof {
        assert(views_of(w@) =~= window_spec(
            views_of(filtered@),
            hint_benchmark as nat,
            suggestion_lines as nat,
        ));
    }
    w
}

/// The completion candidate derived from the rendered page: the first
/// token of the selected row (or the first row when nothing is selected)
/// followed by a space.
pub open spec fn candidate_spec(w: Seq<Seq<char>>, sel: nat) -> Seq<char> {
    let idx = if sel == 0 {
        0
    } else {
        (sel - 1) as nat
    };
    (if idx < w.len() {
        first_token(w[idx as int])
    } else {
        Seq::empty()
    }) + seq![' ']
}

/// Picks the completion candidate for the current selection.
pub fn completion_candidate(window: &Vec<String>, selection_index: usize) -> (r: String)
    ensures
        r@ == candidate_spec(views_of(window@), selection_index as nat),
{
    let idx: usize = if selection_index == 0 {
        0
    } else {
        selection_index - 1
    };
    let mut tok: Vec<char> = if idx < window.len() {
        let line_chars = chars_of(window[idx].as_str());
        first_token_chars(&line_chars)
    } else {
        Vec::new()
    };
    tok.push(' ');
    let r = string_of(&tok);
    proof {
        assert(r@ =~= candidate_spec(views_of(window@), selection_index as nat));
    }
    r
}

/// The first hint whose colour-stripped label starts with the adjusted,
/// trimmed line; none when the trimmed line is empty.
pub open spec fn hint_mode_match(hints: Seq<ModuleHint>, line: Seq<char>) -> Option<int>
    decreases hints.len(),
{
    if crate::text::trim_end_spec(crate::text::replace_space(line)).len() == 0 {
        None
    } else if hints.len() == 0 {
        None
    } else if crate::text::starts_with_seq(
        crate::text::strip_ansi(hints[0].display@),
        crate::text::trim_end_spec(crate::text::replace_space(line)),
    ) {
        Some(0)
    } else {
        match hint_mode_match(hints.skip(1), line) {
            Some(k) => Some(k + 1),
            None => None,
        }
    }
}

/// Finds the single best match shown as an inline hint.
pub fn hint_mode_best(hints: &Vec<ModuleHint>, line: &str) -> (r: Option<usize>)
    ensures
        r is Some <==> hint_mode_match(hints@, line@) is Some,
        r is Some ==> r->0 == hint_mode_match(hints@, line@)->0 && r->0 < hints@.len(),
{
    let line_chars = chars_of(line);
    let replaced = crate::text::replace_space_chars(&line_chars);
    let needle = crate::text::trim_end_chars(&replaced);
    if needle.len() == 0 {
        return None;
    }
    let mut i: usize = 0;
    proof {
        assert(hints@.skip(0) =~= hints@);
    }
    while i < hints.len()
        invariant
            i <= hints@.len(),
            needle@ == crate::text::trim_end_spec(crate::text::replace_space(line@)),
            needle@.len() > 0,
            hint_mode_match(hints@, line@) == shift_opt_u(
                hint_mode_match(hints@.skip(i as int), line@),
                i as int,
            ),
        decreases hints@.len() - i,
    {
        proof {
            lemma_skip_one(hints@, i as int);
        }
        let label = chars_of(hints[i].display.as_str());
        let stripped = crate::text::strip_ansi_chars(&label);
        if crate::text::starts_with_chars(&stripped, &needle) {
            return Some(i);
        }
        i = i + 1;
    }
    None
}

/// An optional index shifted by an offset.
pub open spec fn shift_opt_u(o: Option<int>, d: int) -> Option<int> {
    match o {
        Some(k) => Some(k + d),
        None => None,
    }
}

/// `a + b`, then `c` taken away, everything guarded against running past
/// the machine range: the blank-line count reserved below a block.
pub open spec fn pad_lines(oh: nat, od: nat, base: nat) -> nat {
    if crate::graphics::cap_add(oh, od) > base {
        (crate::graphics::cap_add(oh, od) - base) as nat
    } else {
        0
    }
}

/// Computes the blank padding below a block of the given height.
pub fn pad_lines_exec(oh: usize, od: usize, base: usize) -> (r: usize)
    ensures
        r == pad_lines(oh as nat, od as nat, base as nat),
{
    let total = cap_add_u(oh, od);
    if total > base {
        total - base
    } else {
        0
    }
}

fn cap_add_u(a: usize, b: usize) -> (r: usize)
    ensures
        r == crate::graphics::cap_add(a as nat, b as nat),
{
    if a <= usize::MAX - b {
        a + b
    } else {
        usize::MAX
    }
}

/// The separator block as prepended to the list: nothing, or a line
/// break followed by the expanded separator text.
pub open spec fn sep_lines_spec(sep: Seq<char>) -> Seq<char> {
    if sep.len() == 0 {
        Seq::empty()
    } else {
        seq!['\n'] + sep
    }
}

/// How many lines the separator block occupies.
pub open spec fn sep_count_spec(sep: Seq<char>) -> nat {
    if sep.len() == 0 {
        0
    } else {
        crate::graphics::count_char(sep, '\n') + 1
    }
}

/// Prepares the separator block, returning its text and line count.
pub fn prepare_separator(sep_expanded: &str) -> (r: (String, usize))
    requires
        sep_expanded@.len() < usize::MAX,
    ensures
        r.0@ == sep_lines_spec(sep_expanded@),
        r.1 == sep_count_spec(sep_expanded@),
{
    let chars = chars_of(sep_expanded);
    if chars.len() == 0 {
        proof {
            reveal_strlit("");
        }
        (String::new(), 0)
    } else {
        let nl = crate::graphics::count_char_pub(&chars, '\n');
        proof {
            crate::graphics::lemma_count_char_bound_pub(chars@, '\n');
        }
        let mut s = String::new();
        push_char(&mut s, '\n');
        s.append(sep_expanded);
        proof {
            assert(s@ =~= sep_lines_spec(sep_expanded@));
        }
        (s, nl + 1)
    }
}

/// The footer block as appended to the list: nothing, or a colour reset
/// and a line break followed by the expanded footer text.
pub open spec fn foot_lines_spec(foot: Seq<char>) -> Seq<char> {
    if foot.len() == 0 {
        Seq::empty()
    } else {
        seq!['\u{1b}', '[', '0', 'm', '\n'] + foot
    }
}

/// Prepares the footer block.
pub fn prepare_footer(foot_expanded: &str) -> (r: String)
    ensures
        r@ == foot_lines_spec(foot_expanded@),
{
    if foot_expanded.unicode_len() == 0 {
        let r = String::new();
        proof {
            assert(r@ =~= foot_lines_spec(foot_expanded@));
        }
        r
    } else {
        let mut s = String::new();
        push_char(&mut s, '\u{1b}');
        push_char(&mut s, '[');
        push_char(&mut s, '0');
        push_char(&mut s, 'm');
        push_char(&mut s, '\n');
        s.append(foot_expanded);
        proof {
            assert(s@ =~= foot_lines_spec(foot_expanded@));
        }
        s
    }
}

/// The overlay text as redrawn beside the list: its lines, the last
/// `trimmed` of them dropped, rejoined with a cursor move to the overlay
/// column; or a notice when too few lines remain.
pub open spec fn overlay_join_spec(stdout: Seq<char>, trimmed: nat, right: nat) -> Seq<char> {
    let lines = split_lines(stdout);
    if lines.len() > trimmed {
        join_with(
            lines.subrange(0, (lines.len() - trimmed) as int),
            seq!['\n', '\u{1b}', '['] + dec_of(cap_inc(right)) + seq!['G'],
        )
    } else {
        "not enough lines of overlay_cmd output to be trimmed"@
    }
}

/// `n + 1`, capped at the machine range.
pub open spec fn cap_inc(n: nat) -> nat {
    crate::graphics::cap_add(n, 1)
}

/// Joins the captured overlay output into the redraw block.
pub fn overlay_join(stdout: &str, trimmed: usize, right: usize) -> (r: String)
    ensures
        r@ == overlay_join_spec(stdout@, trimmed as nat, right as nat),
{
    let lines = split_lines_exec(stdout);
    if lines.len() > trimmed {
        let keep = lines.len() - trimmed;
        let mut kept: Vec<String> = Vec::new();
        let mut i: usize = 0;
        while i < keep
            invariant
                keep <= lines@.len(),
                i <= keep,
                views_of(kept@) == views_of(lines@).subrange(0, i as int),
            decreases keep - i,
        {
            kept.push(lines[i].clone());
            i = i + 1;
            proof {
                assert(views_of(kept@) =~= views_of(lines@).subrange(0, i as int));
            }
        }
        let mut sep = String::new();
        push_char(&mut sep, '\n');
        push_char(&mut sep, '\u{1b}');
        push_char(&mut sep, '[');
        let col = cap_add_u(right, 1);
        let num = usize_to_string(col);
        sep.append(num.as_str());
        push_char(&mut sep, 'G');
        proof {
            assert(sep@ =~= seq!['\n', '\u{1b}', '['] + dec_of(cap_inc(right as nat)) + seq![
                'G',
            ]);
        }
        join_with_exec(&kept, sep.as_str())
    } else {
        let r = String::from_str("not enough lines of overlay_cmd output to be trimmed");
        r
    }
}

/// `r * 6`, capped at the machine range: sixel raster rows are stacked in
/// bands six pixels tall.
pub open spec fn cap_mul6(r: nat) -> nat {
    if r * 6 > usize::MAX {
        usize::MAX as nat
    } else {
        r * 6
    }
}

/// How many terminal rows the overlay occupies: a configured height when
/// one is set (never less than the text's line count); else the kitty row
/// count, the sixel raster height converted through the cell height
/// (rounding up), or the plain line count.
pub open spec fn overlay_height_spec(
    overlay: Seq<char>,
    cached: nat,
    cell_height: nat,
) -> nat {
    let c = line_count(overlay);
    if cached == 0 {
        match crate::graphics::kitty_rows_spec(overlay) {
            Some(r) => crate::pager::sat_sub(crate::graphics::cap_add(r, c), 1),
            None => match crate::graphics::sixel_rows_spec(overlay) {
                Some(r) => crate::pager::sat_sub(
                    crate::graphics::cap_add(
                        ((cap_mul6(r) + cell_height - 1) / cell_height as int) as nat,
                        c,
                    ),
                    1,
                ),
                None => c,
            },
        }
    } else {
        if cached >= c {
            cached
        } else {
            c
        }
    }
}

fn ceil_div(a: usize, b: usize) -> (r: usize)
    requires
        b >= 1,
    ensures
        r == (a + b - 1) / b as int,
{
    let q = a / b;
    let rem = a % b;
    proof {
        vstd::arithmetic::div_mod::lemma_fundamental_div_mod(a as int, b as int);
        if rem == 0 {
            vstd::arithmetic::div_mod::lemma_fundamental_div_mod_converse(
                a + b - 1,
                b as int,
                q as int,
                b - 1,
            );
        } else {
            assert(b >= 2);
            assert(q as int * b >= 2 * q) by (nonlinear_arith)
                requires
                    b >= 2,
                    q >= 0,
            ;
            assert((q as int + 1) * b == q as int * b + b) by (nonlinear_arith);
            vstd::arithmetic::div_mod::lemma_fundamental_div_mod_converse(
                a + b - 1,
                b as int,
                q as int + 1,
                rem - 1,
            );
        }
    }
    if rem == 0 {
        q
    } else {
        q + 1
    }
}

/// Measures the overlay's height in terminal rows.
pub fn overlay_height_calc(overlay: &str, cached: usize, cell_height: usize) -> (r: usize)
    requires
        cell_height >= 1,
    ensures
        r == overlay_height_spec(overlay@, cached as nat, cell_height as nat),
{
    let c = line_count_exec(overlay);
    if cached == 0 {
        match crate::graphics::kitty_rows(overlay) {
            Some(r) => sat_sub_usize(cap_add_u(r, c), 1),
            None => {
                match crate::graphics::sixel_rows(overlay) {
                    Some(r) => {
                        let m6 = if r <= usize::MAX / 6 {
                            r * 6
                        } else {
                            usize::MAX
                        };
                        proof {
                            assert(m6 == cap_mul6(r as nat));
                        }
                        let converted = ceil_div(m6, cell_height);
                        sat_sub_usize(cap_add_u(converted, c), 1)
                    },
                    None => c,
                }
            },
        }
    } else {
        if cached >= c {
            cached
        } else {
            c
        }
    }
}


/// The visual settings the renderer reads on every repaint.
pub struct Decor {
    pub place_holder: String,
    pub place_holder_color: String,
    pub hint_color: String,
    pub list_prefix: String,
    pub selection_prefix: String,
    pub prefix_color: String,
    pub description_color: String,
    pub prefix_padding: usize,
    pub layout_rightward: usize,
    pub default_module_message: String,
    pub empty_module_message: String,
    pub footer: String,
    pub overlay_rightward: usize,
    pub overlay_downward: usize,
}

/// A cursor move to the given column: the control-sequence introducer,
/// the column number, and `G`.
pub open spec fn csi_col(col: nat) -> Seq<char> {
    seq!['\u{1b}', '['] + dec_of(col) + seq!['G']
}

fn append_csi_col(s: &mut String, col: usize)
    ensures
        final(s)@ == old(s)@ + csi_col(col as nat),
{
    push_char(s, '\u{1b}');
    push_char(s, '[');
    let num = usize_to_string(col);
    s.append(num.as_str());
    push_char(s, 'G');
    proof {
        assert(final(s)@ =~= old(s)@ + csi_col(col as nat));
    }
}

/// The colour reset sequence.
pub open spec fn sgr_reset() -> Seq<char> {
    seq!['\u{1b}', '[', '0', 'm']
}

fn append_sgr_reset(s: &mut String)
    ensures
        final(s)@ == old(s)@ + sgr_reset(),
{
    push_char(s, '\u{1b}');
    push_char(s, '[');
    push_char(s, '0');
    push_char(s, 'm');
    proof {
        assert(final(s)@ =~= old(s)@ + sgr_reset());
    }
}

/// A row rendered in two columns: cursor to the layout column, the glyph,
/// the coloured padded prefix token, then the coloured description.
pub open spec fn row_two_part(line: Seq<char>, glyph: Seq<char>, d: Decor) -> Seq<char> {
    csi_col(cap_inc(d.layout_rightward as nat)) + glyph + d.prefix_color@ + pad_to(
        tokens_spec(line)[0],
        d.prefix_padding as nat,
    ) + seq![' '] + d.description_color@ + join_spaces(tokens_spec(line).skip(1)) + sgr_reset()
}

/// A row rendered verbatim at the layout column.
pub open spec fn row_plain(line: Seq<char>, d: Decor) -> Seq<char> {
    csi_col(cap_inc(d.layout_rightward as nat)) + line
}

/// One line of the suggestion block, formatted as the highlighter does:
/// the selected row gets the selection glyph, decoration rows pass
/// through, other item rows get the list glyph.
pub open spec fn format_row(
    index: nat,
    line: Seq<char>,
    d: Decor,
    sel: nat,
    span: nat,
    sep_count: nat,
) -> Seq<char> {
    if index == sel + sep_count && sel > 0 {
        if tokens_spec(line).len() >= 2 {
            row_two_part(line, d.selection_prefix@, d)
        } else {
            row_plain(line, d)
        }
    } else if line == d.place_holder@ {
        d.place_holder_color@ + d.place_holder@ + sgr_reset()
    } else if (crate::text::contains_seq(d.default_module_message@, line)
        || crate::text::contains_seq(d.empty_module_message@, line)) && line.len() > 0 {
        row_plain(line, d)
    } else if index <= sep_count {
        line
    } else if index > sep_count + span && crate::text::contains_seq(d.footer@, line) {
        line
    } else {
        if tokens_spec(line).len() >= 2 {
            row_two_part(line, d.list_prefix@, d)
        } else {
            row_plain(line, d)
        }
    }
}

fn format_row_exec(
    index: usize,
    line: &str,
    d: &Decor,
    sel: usize,
    span: usize,
    sep_count: usize,
) -> (r: String)
    requires
        sel + sep_count <= usize::MAX,
        sep_count + span <= usize::MAX,
    ensures
        r@ == format_row(index as nat, line@, *d, sel as nat, span as nat, sep_count as nat),
{
    let line_chars = chars_of(line);
    let ph_chars = chars_of(d.place_holder.as_str());
    let dm_chars = chars_of(d.default_module_message.as_str());
    let em_chars = chars_of(d.empty_module_message.as_str());
    let ft_chars = chars_of(d.footer.as_str());
    if index == sel + sep_count && sel > 0 {
        two_part_or_plain(&line_chars, d.selection_prefix.as_str(), d)
    } else if vec_eq(&line_chars, &ph_chars) {
        let mut s = String::new();
        s.append(d.place_holder_color.as_str());
        s.append(d.place_holder.as_str());
        append_sgr_reset(&mut s);
        proof {
            assert(s@ =~= d.place_holder_color@ + d.place_holder@ + sgr_reset());
        }
        s
    } else if (crate::text::contains_chars(&dm_chars, &line_chars) || crate::text::contains_chars(
        &em_chars,
        &line_chars,
    )) && line_chars.len() > 0 {
        plain_row(&line_chars, d)
    } else if index <= sep_count {
        let r = line.to_owned();
        r
    } else if index > sep_count + span && crate::text::contains_chars(&ft_chars, &line_chars) {
        let r = line.to_owned();
        r
    } else {
        two_part_or_plain(&line_chars, d.list_prefix.as_str(), d)
    }
}

fn vec_eq(a: &Vec<char>, b: &Vec<char>) -> (r: bool)
    ensures
        r == (a@ == b@),
{
    if a.len() != b.len() {
        return false;
    }
    let mut i: usize = 0;
    while i < a.len()
        invariant
            a@.len() == b@.len(),
            i <= a@.len(),
            forall|k: int| 0 <= k < i ==> a@[k] == b@[k],
        decreases a@.len() - i,
    {
        if a[i] != b[i] {
            return false;
        }
        i = i + 1;
    }
    proof {
        assert(a@ =~= b@);
    }
    true
}

fn plain_row(line_chars: &Vec<char>, d: &Decor) -> (r: String)
    ensures
        r@ == row_plain(line_chars@, *d),
{
    let mut s = String::new();
    append_csi_col(&mut s, cap_add_u(d.layout_rightward, 1));
    let body = string_of(line_chars);
    s.append(body.as_str());
    proof {
        assert(s@ =~= row_plain(line_chars@, *d));
    }
    s
}

fn two_part_or_plain(line_chars: &Vec<char>, glyph: &str, d: &Decor) -> (r: String)
    ensures
        r@ == (if tokens_spec(line_chars@).len() >= 2 {
            row_two_part(line_chars@, glyph@, *d)
        } else {
            row_plain(line_chars@, *d)
        }),
{
    let parts = tokens_exec(line_chars);
    if parts.len() >= 2 {
        let mut s = String::new();
        append_csi_col(&mut s, cap_add_u(d.layout_rightward, 1));
        s.append(glyph);
        s.append(d.prefix_color.as_str());
        let tok_chars = chars_of(parts[0].as_str());
        let padded = pad_to_exec(&tok_chars, d.prefix_padding);
        let padded_s = string_of(&padded);
        s.append(padded_s.as_str());
        push_char(&mut s, ' ');
        s.append(d.description_color.as_str());
        let mut rest: Vec<String> = Vec::new();
        let mut i: usize = 1;
        while i < parts.len()
            invariant
                1 <= i <= parts@.len(),
                views_of(rest@) == views_of(parts@).subrange(1, i as int),
            decreases parts@.len() - i,
        {
            rest.push(parts[i].clone());
            i = i + 1;
            proof {
                assert(views_of(rest@) =~= views_of(parts@).subrange(1, i as int));
            }
        }
        proof {
            assert(views_of(rest@) =~= views_of(parts@).skip(1));
            assert(views_of(parts@).skip(1) =~= tokens_spec(line_chars@).skip(1));
        }
        let joined = join_with_exec(&rest, " ");
        proof {
            reveal_strlit(" ");
            lemma_join_one_space(views_of(rest@));
        }
        s.append(joined.as_str());
        append_sgr_reset(&mut s);
        proof {
            assert(tokens_spec(line_chars@)[0] == views_of(parts@)[0]);
            assert(s@ =~= row_two_part(line_chars@, glyph@, *d));
        }
        s
    } else {
        plain_row(line_chars, d)
    }
}

proof fn lemma_join_one_space(parts: Seq<Seq<char>>)
    ensures
        join_with(parts, " "@) == join_spaces(parts),
    decreases parts.len(),
{
    reveal_strlit(" ");
    if parts.len() > 1 {
        lemma_join_one_space(parts.skip(1));
        assert(" "@ =~= seq![' ']);
        assert(parts[0] + " "@ + join_with(parts.skip(1), " "@) =~= parts[0] + seq![' ']
            + join_spaces(parts.skip(1)));
    }
}

/// The redraw tail pinned after the list: save the cursor, move up past
/// the list and header, move down by the configured offset, move to the
/// overlay column, emit the overlay text, restore the cursor and show it.
pub open spec fn overlay_tail(
    hint_lines: nat,
    header_lines: nat,
    d: Decor,
    overlay: Seq<char>,
) -> Seq<char> {
    seq!['\u{1b}', '[', 's'] + seq!['\u{1b}', '['] + dec_of(
        sat_sub(crate::graphics::cap_add(hint_lines, header_lines), 2),
    ) + seq!['A'] + (if d.overlay_downward == 0 {
        Seq::<char>::empty()
    } else {
        seq!['\u{1b}', '['] + dec_of(d.overlay_downward as nat) + seq!['B']
    }) + csi_col(cap_inc(d.overlay_rightward as nat)) + overlay + seq![
        '\u{1b}',
        '[',
        'u',
        '\u{1b}',
        '[',
        '?',
        '2',
        '5',
        'h',
    ]
}

fn append_overlay_tail(s: &mut String, hint_lines: usize, header_lines: usize, d: &Decor,
    overlay: &str)
    ensures
        final(s)@ == old(s)@ + overlay_tail(hint_lines as nat, header_lines as nat, *d, overlay@),
{
    push_char(s, '\u{1b}');
    push_char(s, '[');
    push_char(s, 's');
    push_char(s, '\u{1b}');
    push_char(s, '[');
    let up = sat_sub_usize(cap_add_u(hint_lines, header_lines), 2);
    let upn = usize_to_string(up);
    s.append(upn.as_str());
    push_char(s, 'A');
    if d.overlay_downward != 0 {
        push_char(s, '\u{1b}');
        push_char(s, '[');
        let dn = usize_to_string(d.overlay_downward);
        s.append(dn.as_str());
        push_char(s, 'B');
    }
    append_csi_col(s, cap_add_u(d.overlay_rightward, 1));
    s.append(overlay);
    push_char(s, '\u{1b}');
    push_char(s, '[');
    push_char(s, 'u');
    push_char(s, '\u{1b}');
    push_char(s, '[');
    push_char(s, '?');
    push_char(s, '2');
    push_char(s, '5');
    push_char(s, 'h');
    proof {
        assert(final(s)@ =~= old(s)@ + overlay_tail(
            hint_lines as nat,
            header_lines as nat,
            *d,
            overlay@,
        ));
    }
}

/// The rows of the suggestion block, each formatted, starting at `index`.
pub open spec fn rows_fmt(
    lines: Seq<Seq<char>>,
    index: nat,
    d: Decor,
    sel: nat,
    span: nat,
    sep_count: nat,
) -> Seq<Seq<char>>
    decreases lines.len(),
{
    if lines.len() == 0 {
        Seq::empty()
    } else {
        seq![format_row(index, lines[0], d, sel, span, sep_count)] + rows_fmt(
            lines.skip(1),
            index + 1,
            d,
            sel,
            span,
            sep_count,
        )
    }
}

/// What the highlighter hands back in list mode: every hint line
/// formatted and rejoined, then the overlay redraw tail.
pub open spec fn highlight_list_spec(
    hint: Seq<char>,
    header_lines: nat,
    d: Decor,
    overlay: Seq<char>,
    sel: nat,
    span: nat,
    sep_count: nat,
) -> Seq<char> {
    join_with(rows_fmt(split_lines(hint), 0, d, sel, span, sep_count), seq!['\n'])
        + overlay_tail(line_count(hint), header_lines, d, overlay)
}

/// What the highlighter hands back in hint mode: the dimmed hint text
/// and the overlay redraw tail.
pub open spec fn highlight_hint_mode_spec(
    hint: Seq<char>,
    header_lines: nat,
    d: Decor,
    overlay: Seq<char>,
) -> Seq<char> {
    sgr_reset() + d.hint_color@ + hint + sgr_reset() + overlay_tail(
        line_count(hint),
        header_lines,
        d,
        overlay,
    )
}

/// The helper that feeds hints, completions and highlighting to the
/// line editor.
pub struct OtterHelper {
    pub hints: Vec<ModuleHint>,
}

impl OtterHelper {
    /// Formats the hint text for display, clamping the selection state
    /// first; in hint mode the text is dimmed, in list mode each row is
    /// formatted and the selected one marked.
    pub fn highlight_hint(
        &self,
        hint: &str,
        hint_mode: bool,
        st: &mut UiState,
        d: &Decor,
        overlay: &str,
        header_line_count: usize,
        separator_count: usize,
    ) -> (r: String)
        requires
            separator_count + old(st).filtered_hint_count <= usize::MAX,
            separator_count + old(st).suggestion_lines <= usize::MAX,
        ensures
            hint_mode ==> r@ == highlight_hint_mode_spec(
                hint@,
                header_line_count as nat,
                *d,
                overlay@,
            ) && *final(st) == *old(st),
            !hint_mode ==> crate::pager::clamped(*final(st)) && crate::pager::same_config(
                *old(st),
                *final(st),
            ) && r@ == highlight_list_spec(
                hint@,
                header_line_count as nat,
                *d,
                overlay@,
                final(st).selection_index as nat,
                final(st).selection_span as nat,
                separator_count as nat,
            ),
    {
        if hint_mode {
            let mut s = String::new();
            append_sgr_reset(&mut s);
            s.append(d.hint_color.as_str());
            s.append(hint);
            append_sgr_reset(&mut s);
            let hl = line_count_exec(hint);
            append_overlay_tail(&mut s, hl, header_line_count, d, overlay);
            proof {
                assert(s@ =~= highlight_hint_mode_spec(
                    hint@,
                    header_line_count as nat,
                    *d,
                    overlay@,
                ));
            }
            s
        } else {
            st.clamp();
            let sel = st.selection_index;
            let span = st.selection_span;
            proof {
                assert(sel <= span);
                assert(span <= st.filtered_hint_count || span <= st.suggestion_lines);
            }
            let lines = split_lines_exec(hint);
            let mut rows: Vec<String> = Vec::new();
            let mut i: usize = 0;
            let ghost all = split_lines(hint@);
            proof {
                assert(all.skip(0) =~= all);
                assert(views_of(rows@) =~= Seq::<Seq<char>>::empty());
                assert(rows_fmt(all, 0, *d, sel as nat, span as nat, separator_count as nat)
                    =~= views_of(rows@) + rows_fmt(
                    all.skip(0),
                    0,
                    *d,
                    sel as nat,
                    span as nat,
                    separator_count as nat,
                ));
            }
            while i < lines.len()
                invariant
                    i <= lines@.len(),
                    views_of(lines@) == all,
                    sel + separator_count <= usize::MAX,
                    separator_count + span <= usize::MAX,
                    rows_fmt(all, 0, *d, sel as nat, span as nat, separator_count as nat)
                        == views_of(rows@) + rows_fmt(
                        all.skip(i as int),
                        i as nat,
                        *d,
                        sel as nat,
                        span as nat,
                        separator_count as nat,
                    ),
                decreases lines@.len() - i,
            {
                proof {
                    lemma_skip_one(all, i as int);
                }
                let row = format_row_exec(i, lines[i].as_str(), d, sel, span, separator_count);
                proof {
                    assert(views_of(rows@.push(row)) =~= views_of(rows@) + seq![row@]);
                }
                rows.push(row);
                i = i + 1;
                proof {
                    assert(rows_fmt(all, 0, *d, sel as nat, span as nat, separator_count as nat)
                        =~= views_of(rows@) + rows_fmt(
                        all.skip(i as int),
                        i as nat,
                        *d,
                        sel as nat,
                        span as nat,
                        separator_count as nat,
                    ));
                }
            }
            proof {
                assert(rows_fmt(
                    all.skip(i as int),
                    i as nat,
                    *d,
                    sel as nat,
                    span as nat,
                    separator_count as nat,
                ) =~= Seq::<Seq<char>>::empty());
                assert(views_of(rows@) =~= rows_fmt(
                    all,
                    0,
                    *d,
                    sel as nat,
                    span as nat,
                    separator_count as nat,
                ));
            }
            let mut s = join_with_exec(&rows, "\n");
            proof {
                reveal_strlit("\n");
                assert("\n"@ =~= seq!['\n']);
            }
            let hl = line_count_exec(hint);
            append_overlay_tail(&mut s, hl, header_line_count, d, overlay);
            proof {
                assert(s@ =~= highlight_list_spec(
                    hint@,
                    header_line_count as nat,
                    *d,
                    overlay@,
                    sel as nat,
                    span as nat,
                    separator_count as nat,
                ));
            }
            s
        }
    }

    /// Decides what a completion request inserts: in hint mode the
    /// candidate prefix replaces the line head while the caret is inside
    /// it; in list mode the empty and default modules back an empty or
    /// unmatched line, and the candidate completes at the line's end.
    /// Every list-mode path deselects.
    pub fn complete(
        &self,
        line: &str,
        pos: usize,
        hint_mode: bool,
        completion_candidate: &str,
        empty_module: &str,
        default_module: &str,
        st: &mut UiState,
    ) -> (r: (usize, String))
        ensures
            hint_mode ==> *final(st) == *old(st) && (if pos <= completion_candidate@.len() && pos
                > 0 {
                r.0 == 0 && r.1@ == completion_candidate@ + seq![' ']
            } else {
                r.0 == pos && r.1@ == Seq::<char>::empty()
            }),
            !hint_mode ==> final(st).selection_index == 0 && crate::dispatch::same_but_sel(
                *old(st),
                *final(st),
            ) && final(st).selection_span == old(st).selection_span && (
            if line@.len() == 0 && old(st).selection_index == 0 {
                r.0 == 0 && r.1@ == empty_module@ + seq![' ']
            } else if completion_candidate@ == seq![' '] {
                r.0 == 0 && r.1@ == default_module@ + seq![' ']
            } else if pos == line@.len() {
                r.0 == 0 && r.1@ == completion_candidate@
            } else {
                r.0 == pos && r.1@ == Seq::<char>::empty()
            }),
    {
        if hint_mode {
            if pos <= completion_candidate.unicode_len() && pos > 0 {
                let mut c = completion_candidate.to_owned();
                push_char(&mut c, ' ');
                proof {
                    assert(c@ =~= completion_candidate@ + seq![' ']);
                }
                (0, c)
            } else {
                (pos, String::new())
            }
        } else {
            let was_sel = st.selection_index;
            st.selection_index = 0;
            let cand_chars = chars_of(completion_candidate);
            if line.unicode_len() == 0 && was_sel == 0 {
                let mut c = empty_module.to_owned();
                push_char(&mut c, ' ');
                proof {
                    assert(c@ =~= empty_module@ + seq![' ']);
                }
                (0, c)
            } else if cand_chars.len() == 1 && {
                let c0 = cand_chars[0];
                c0 == ' '
            } {
                proof {
                    assert(cand_chars@ =~= seq![' ']);
                }
                let mut c = default_module.to_owned();
                push_char(&mut c, ' ');
                proof {
                    assert(c@ =~= default_module@ + seq![' ']);
                }
                (0, c)
            } else {
                proof {
                    if completion_candidate@ == seq![' '] {
                        assert(cand_chars@.len() == 1 && cand_chars@[0] == ' ');
                    }
                }
                if pos == line.unicode_len() {
                    (0, completion_candidate.to_owned())
                } else {
                    (pos, String::new())
                }
            }
        }
    }
}


/// Blank padding below a block of `lc` lines under the header and
/// separator, all sums capped at the machine range.
pub open spec fn pad3(oh: nat, od: nat, hl: nat, lc: nat, sepc: nat) -> nat {
    pad_lines(oh, od, crate::graphics::cap_add(crate::graphics::cap_add(hl, lc), sepc))
}

fn pad3_exec(oh: usize, od: usize, hl: usize, lc: usize, sepc: usize) -> (r: usize)
    ensures
        r == pad3(oh as nat, od as nat, hl as nat, lc as nat, sepc as nat),
{
    pad_lines_exec(oh, od, cap_add_u(cap_add_u(hl, lc), sepc))
}

/// Blank padding below the cheat-sheet row, mirroring its own guard: the
/// separator joins the height side of the comparison.
pub open spec fn cheat_pad(oh: nat, od: nat, hl: nat, cc: nat, sepc: nat) -> nat {
    if crate::graphics::cap_add(crate::graphics::cap_add(oh, od), sepc)
        > crate::graphics::cap_add(hl, cc) {
        sat_sub(
            crate::graphics::cap_add(oh, od),
            crate::graphics::cap_add(crate::graphics::cap_add(hl, cc), sepc),
        )
    } else {
        0
    }
}

fn cheat_pad_exec(oh: usize, od: usize, hl: usize, cc: usize, sepc: usize) -> (r: usize)
    ensures
        r == cheat_pad(oh as nat, od as nat, hl as nat, cc as nat, sepc as nat),
{
    if cap_add_u(cap_add_u(oh, od), sepc) > cap_add_u(hl, cc) {
        sat_sub_usize(cap_add_u(oh, od), cap_add_u(cap_add_u(hl, cc), sepc))
    } else {
        0
    }
}

/// The hint text shown in list mode: the place holder or separator, the
/// page of matched labels (or the empty/default-module message, or the
/// cheat-sheet row), blank padding to keep the overlay pinned, and the
/// footer.
pub open spec fn list_hint_display(
    line: Seq<char>,
    entry: Seq<char>,
    ph: Seq<char>,
    sep: Seq<char>,
    foot: Seq<char>,
    e_mod: Seq<char>,
    d_mod: Seq<char>,
    agg: Seq<char>,
    sel: nat,
    ind: Seq<char>,
    oh: nat,
    od: nat,
    hl: nat,
    pad_eff: nat,
) -> Seq<char> {
    let sepl = sep_lines_spec(sep);
    let sepc = sep_count_spec(sep);
    let footl = foot_lines_spec(foot);
    if line.len() == 0 {
        ph + sepl + (if e_mod.len() > 0 && sel == 0 {
            seq!['\n'] + e_mod + blank_lines(pad3(oh, od, hl, line_count(e_mod), sepc))
        } else if agg.len() == 0 {
            sgr_reset() + seq!['n']
        } else {
            seq!['\n'] + agg + blank_lines(pad_eff)
        }) + footl
    } else if crate::text::trim_end_spec(line) == entry {
        sepl + seq!['\n'] + entry + seq![' '] + ind + seq![' '] + "cheat sheet"@ + blank_lines(
            cheat_pad(oh, od, hl, line_count(entry), sepc),
        ) + footl
    } else if agg.len() == 0 {
        if d_mod.len() == 0 {
            sgr_reset() + sepl
        } else {
            sepl + seq!['\n'] + d_mod + blank_lines(pad3(oh, od, hl, line_count(d_mod), sepc))
                + footl
        }
    } else {
        sepl + seq!['\n'] + agg + blank_lines(pad3(oh, od, hl, line_count(agg), sepc)) + footl
    }
}

/// The hint text shown in hint mode: the place holder, the cheat-sheet
/// row, the single best-matching label, or a bare colour reset — each
/// padded and followed by the footer reduced to its lines.
pub open spec fn hint_mode_display(
    line: Seq<char>,
    entry: Seq<char>,
    ph: Seq<char>,
    ind: Seq<char>,
    foot_l: Seq<char>,
    pad0: nat,
    hints: Seq<ModuleHint>,
) -> Seq<char> {
    let fh = join_with(split_lines(foot_l), seq!['\n']);
    if line.len() == 0 {
        ph + blank_lines(pad0) + fh
    } else if crate::text::trim_end_spec(line) == entry {
        entry + seq![' '] + ind + "cheat sheet"@ + blank_lines(pad0) + fh
    } else {
        match hint_mode_match(hints, line) {
            Some(k) => hints[k].display@ + blank_lines(pad0) + fh,
            None => sgr_reset() + blank_lines(pad0) + fh,
        }
    }
}

/// What one hint pass produces: the hint to display, the completion
/// candidate it established, the filtered label list and the separator's
/// line count.
pub struct HintOutcome {
    pub hint: ModuleHint,
    pub completion_candidate: String,
    pub filtered: Vec<String>,
    pub separator_count: usize,
}

fn append_blank_lines(s: &mut String, n: usize)
    ensures
        final(s)@ == old(s)@ + blank_lines(n as nat),
{
    let mut i: usize = 0;
    while i < n
        invariant
            i <= n,
            s@ == old(s)@ + blank_lines(i as nat),
        decreases n - i,
    {
        push_char(s, '\n');
        push_char(s, ' ');
        i = i + 1;
        proof {
            assert(s@ =~= old(s)@ + blank_lines(i as nat));
        }
    }
}

impl OtterHelper {
    /// Computes the hint for the current line: filters the modules,
    /// windows the result by the scroll offset, derives the completion
    /// candidate, and assembles the display text with separator, padding
    /// and footer.
    #[verifier::rlimit(100)]
    pub fn hint(
        &self,
        line: &str,
        pos: usize,
        st: &mut UiState,
        hint_mode: bool,
        customized_list_order: bool,
        place_holder: &str,
        cheatsheet_entry: &str,
        indicator_no_arg_module: &str,
        separator_expanded: &str,
        footer_expanded: &str,
        empty_module_message_expanded: &str,
        default_module_message_expanded: &str,
        overlay_height: usize,
        overlay_down: usize,
        header_line_count: usize,
    ) -> (r: HintOutcome)
        requires
            separator_expanded@.len() < usize::MAX,
        ensures
            *final(st) == (UiState {
                hint_span: self.hints@.len() as usize,
                filtered_hint_count: r.filtered@.len() as usize,
                ..*old(st)
            }),
            self.hints@.len() <= usize::MAX,
            views_of(r.filtered@) == crate::suggest::filtered_labels(
                self.hints@,
                line@,
                customized_list_order,
            ),
            r.separator_count == sep_count_spec(separator_expanded@),
            r.hint.w_arg == (if hint_mode {
                match hint_mode_match(self.hints@, line@) {
                    Some(k) => if line@.len() > 0 && crate::text::trim_end_spec(line@)
                        != cheatsheet_entry@ {
                        self.hints@[k].w_arg
                    } else {
                        None
                    },
                    None => None,
                }
            } else {
                None
            }),
            !hint_mode ==> {
                let w = window_spec(
                    views_of(r.filtered@),
                    old(st).hint_benchmark as nat,
                    old(st).suggestion_lines as nat,
                );
                let pad_eff = if old(st).hint_benchmark + old(st).suggestion_lines
                    > r.filtered@.len() {
                    pad_lines(overlay_height as nat, overlay_down as nat, header_line_count as nat)
                } else {
                    pad3(
                        overlay_height as nat,
                        overlay_down as nat,
                        header_line_count as nat,
                        w.len(),
                        sep_count_spec(separator_expanded@),
                    )
                };
                &&& r.hint.completion == pos
                &&& r.completion_candidate@ == (if line@.len() > 0 && crate::text::trim_end_spec(
                    line@,
                ) == cheatsheet_entry@ {
                    seq!['?', ' ']
                } else {
                    candidate_spec(w, old(st).selection_index as nat)
                })
                &&& r.hint.display@ == list_hint_display(
                    line@,
                    cheatsheet_entry@,
                    place_holder@,
                    separator_expanded@,
                    footer_expanded@,
                    empty_module_message_expanded@,
                    default_module_message_expanded@,
                    join_with(w, seq!['\n']),
                    old(st).selection_index as nat,
                    indicator_no_arg_module@,
                    overlay_height as nat,
                    overlay_down as nat,
                    header_line_count as nat,
                    pad_eff,
                )
            },
            hint_mode ==> {
                let pad0 = pad_lines(
                    overlay_height as nat,
                    overlay_down as nat,
                    header_line_count as nat,
                );
                &&& r.hint.display@ == hint_mode_display(
                    line@,
                    cheatsheet_entry@,
                    place_holder@,
                    indicator_no_arg_module@,
                    foot_lines_spec(footer_expanded@),
                    pad0,
                    self.hints@,
                )
                &&& r.completion_candidate@ == (if line@.len() == 0 {
                    Seq::<char>::empty()
                } else if crate::text::trim_end_spec(line@) == cheatsheet_entry@ {
                    seq!['?']
                } else {
                    match hint_mode_match(self.hints@, line@) {
                        Some(k) => first_token(self.hints@[k].display@),
                        None => Seq::<char>::empty(),
                    }
                })
                &&& r.hint.completion == (if line@.len() == 0 {
                    0
                } else if crate::text::trim_end_spec(line@) == cheatsheet_entry@ {
                    line@.len() as usize
                } else {
                    match hint_mode_match(self.hints@, line@) {
                        Some(k) => line@.len() as usize,
                        None => 0,
                    }
                })
            },
    {
        st.set_hint_span(self.hints.len());
        let filtered = crate::suggest::filter_labels(&self.hints, line, customized_list_order);
        st.set_filtered_count(filtered.len());
        let sep_pair = prepare_separator(separator_expanded);
        let sep_l = sep_pair.0;
        let sep_c = sep_pair.1;
        let foot_l = prepare_footer(footer_expanded);
        let line_chars = chars_of(line);
        let trimmed = crate::text::trim_end_chars(&line_chars);
        let entry_chars = chars_of(cheatsheet_entry);
        let is_cheat = line_chars.len() > 0 && vec_eq(&trimmed, &entry_chars);
        let pad0 = pad_lines_exec(overlay_height, overlay_down, header_line_count);
        if hint_mode {
            let foot_pieces = split_lines_exec(foot_l.as_str());
            let fh = join_with_exec(&foot_pieces, "\n");
            proof {
                reveal_strlit("\n");
                assert("\n"@ =~= seq!['\n']);
            }
            let ghost pad0n = pad0 as nat;
            if line_chars.len() == 0 {
                let mut disp = place_holder.to_owned();
                append_blank_lines(&mut disp, pad0);
                disp.append(fh.as_str());
                proof {
                    assert(disp@ =~= hint_mode_display(
                        line@,
                        cheatsheet_entry@,
                        place_holder@,
                        indicator_no_arg_module@,
                        foot_lines_spec(footer_expanded@),
                        pad0n,
                        self.hints@,
                    ));
                }
                HintOutcome {
                    hint: ModuleHint { display: disp, completion: 0, w_arg: None },
                    completion_candidate: String::new(),
                    filtered,
                    separator_count: sep_c,
                }
            } else if is_cheat {
                let mut disp = cheatsheet_entry.to_owned();
                push_char(&mut disp, ' ');
                disp.append(indicator_no_arg_module);
                disp.append("cheat sheet");
                append_blank_lines(&mut disp, pad0);
                disp.append(fh.as_str());
                let mut cand = String::new();
                push_char(&mut cand, '?');
                proof {
                    assert(disp@ =~= hint_mode_display(
                        line@,
                        cheatsheet_entry@,
                        place_holder@,
                        indicator_no_arg_module@,
                        foot_lines_spec(footer_expanded@),
                        pad0n,
                        self.hints@,
                    ));
                    assert(cand@ =~= seq!['?']);
                }
                HintOutcome {
                    hint: ModuleHint {
                        display: disp,
                        completion: line.unicode_len(),
                        w_arg: None,
                    },
                    completion_candidate: cand,
                    filtered,
                    separator_count: sep_c,
                }
            } else {
                match hint_mode_best(&self.hints, line) {
                    Some(k) => {
                        let h = self.hints[k].suffix(line.unicode_len(), pad0, fh.as_str());
                        let disp_chars = chars_of(self.hints[k].display.as_str());
                        let tok = first_token_chars(&disp_chars);
                        let cand = string_of(&tok);
                        proof {
                            assert(h.display@ =~= hint_mode_display(
                                line@,
                                cheatsheet_entry@,
                                place_holder@,
                                indicator_no_arg_module@,
                                foot_lines_spec(footer_expanded@),
                                pad0n,
                                self.hints@,
                            ));
                        }
                        HintOutcome {
                            hint: h,
                            completion_candidate: cand,
                            filtered,
                            separator_count: sep_c,
                        }
                    },
                    None => {
                        let mut disp = String::new();
                        append_sgr_reset(&mut disp);
                        append_blank_lines(&mut disp, pad0);
                        disp.append(fh.as_str());
                        proof {
                            assert(disp@ =~= hint_mode_display(
                                line@,
                                cheatsheet_entry@,
                                place_holder@,
                                indicator_no_arg_module@,
                                foot_lines_spec(footer_expanded@),
                                pad0n,
                                self.hints@,
                            ));
                        }
                        HintOutcome {
                            hint: ModuleHint { display: disp, completion: 0, w_arg: None },
                            completion_candidate: String::new(),
                            filtered,
                            separator_count: sep_c,
                        }
                    },
                }
            }
        } else {
            let window = page_window(&filtered, st.hint_benchmark, st.suggestion_lines);
            let agg = join_with_exec(&window, "\n");
            proof {
                reveal_strlit("\n");
                assert("\n"@ =~= seq!['\n']);
            }
            let n = filtered.len();
            let from_start = st.hint_benchmark > n || st.suggestion_lines > n
                - st.hint_benchmark;
            let pad_eff = if from_start {
                pad0
            } else {
                pad3_exec(
                    overlay_height,
                    overlay_down,
                    header_line_count,
                    window.len(),
                    sep_c,
                )
            };
            let cand0 = completion_candidate(&window, st.selection_index);
            let cand = if is_cheat {
                let mut c = String::new();
                push_char(&mut c, '?');
                push_char(&mut c, ' ');
                proof {
                    assert(c@ =~= seq!['?', ' ']);
                }
                c
            } else {
                cand0
            };
            let ghost oh = overlay_height as nat;
            let ghost od = overlay_down as nat;
            let ghost hl = header_line_count as nat;
            let mut disp = String::new();
            if line_chars.len() == 0 {
                disp.append(place_holder);
                disp.append(sep_l.as_str());
                let em_len = empty_module_message_expanded.unicode_len();
                if em_len > 0 && st.selection_index == 0 {
                    push_char(&mut disp, '\n');
                    disp.append(empty_module_message_expanded);
                    let emc = line_count_exec(empty_module_message_expanded);
                    let pade = pad3_exec(
                        overlay_height,
                        overlay_down,
                        header_line_count,
                        emc,
                        sep_c,
                    );
                    append_blank_lines(&mut disp, pade);
                } else if agg.unicode_len() == 0 {
                    append_sgr_reset(&mut disp);
                    push_char(&mut disp, 'n');
                } else {
                    push_char(&mut disp, '\n');
                    disp.append(agg.as_str());
                    append_blank_lines(&mut disp, pad_eff);
                }
                disp.append(foot_l.as_str());
            } else if is_cheat {
                disp.append(sep_l.as_str());
                push_char(&mut disp, '\n');
                disp.append(cheatsheet_entry);
                push_char(&mut disp, ' ');
                disp.append(indicator_no_arg_module);
                push_char(&mut disp, ' ');
                disp.append("cheat sheet");
                let cc = line_count_exec(cheatsheet_entry);
                let padc = cheat_pad_exec(
                    overlay_height,
                    overlay_down,
                    header_line_count,
                    cc,
                    sep_c,
                );
                append_blank_lines(&mut disp, padc);
                disp.append(foot_l.as_str());
            } else if agg.unicode_len() == 0 {
                if default_module_message_expanded.unicode_len() == 0 {
                    append_sgr_reset(&mut disp);
                    disp.append(sep_l.as_str());
                } else {
                    disp.append(sep_l.as_str());
                    push_char(&mut disp, '\n');
                    disp.append(default_module_message_expanded);
                    let dmc = line_count_exec(default_module_message_expanded);
                    let padd = pad3_exec(
                        overlay_height,
                        overlay_down,
                        header_line_count,
                        dmc,
                        sep_c,
                    );
                    append_blank_lines(&mut disp, padd);
                    disp.append(foot_l.as_str());
                }
            } else {
                disp.append(sep_l.as_str());
                push_char(&mut disp, '\n');
                disp.append(agg.as_str());
                let ac = line_count_exec(agg.as_str());
                let pada = pad3_exec(
                    overlay_height,
                    overlay_down,
                    header_line_count,
                    ac,
                    sep_c,
                );
                append_blank_lines(&mut disp, pada);
                disp.append(foot_l.as_str());
            }
            proof {
                assert(disp@ =~= list_hint_display(
                    line@,
                    cheatsheet_entry@,
                    place_holder@,
                    separator_expanded@,
                    footer_expanded@,
                    empty_module_message_expanded@,
                    default_module_message_expanded@,
                    join_with(
                        window_spec(
                            views_of(filtered@),
                            old(st).hint_benchmark as nat,
                            old(st).suggestion_lines as nat,
                        ),
                        seq!['\n'],
                    ),
                    old(st).selection_index as nat,
                    indicator_no_arg_module@,
                    oh,
                    od,
                    hl,
                    (if old(st).hint_benchmark + old(st).suggestion_lines > filtered@.len() {
                        pad_lines(oh, od, hl)
                    } else {
                        pad3(oh, od, hl, window_spec(
                            views_of(filtered@),
                            old(st).hint_benchmark as nat,
                            old(st).suggestion_lines as nat,
                        ).len(), sep_count_spec(separator_expanded@))
                    }),
                ));
            }
            HintOutcome {
                hint: ModuleHint { display: disp, completion: pos, w_arg: None },
                completion_candidate: cand,
                filtered,
                separator_count: sep_c,
            }
        }
    }
}


/// The widest colour-stripped module prefix, which aligns the sheet.
pub open spec fn max_prefix_len(modules: Seq<crate::settings::Module>) -> nat
    decreases modules.len(),
{
    if modules.len() == 0 {
        0
    } else {
        let rest = max_prefix_len(modules.skip(1));
        if crate::text::strip_ansi(modules[0].prefix@).len() > rest {
            crate::text::strip_ansi(modules[0].prefix@).len()
        } else {
            rest
        }
    }
}

/// One cheat-sheet row: indentation, the coloured padded prefix, then the
/// coloured indicator and description.
pub open spec fn cheat_line(
    m: crate::settings::Module,
    width: nat,
    prefix_color: Seq<char>,
    description_color: Seq<char>,
    with_arg_ind: Seq<char>,
    no_arg_ind: Seq<char>,
) -> Seq<char> {
    seq![' ', ' ', ' ', ' '] + prefix_color + pad_to(m.prefix@, width) + sgr_reset() + seq![' ']
        + description_color + (if m.with_argument == Some(true) {
        with_arg_ind
    } else {
        no_arg_ind
    }) + m.description@ + sgr_reset()
}

/// The rows of the cheat sheet, one per module.
pub open spec fn cheat_lines(
    modules: Seq<crate::settings::Module>,
    width: nat,
    prefix_color: Seq<char>,
    description_color: Seq<char>,
    with_arg_ind: Seq<char>,
    no_arg_ind: Seq<char>,
) -> Seq<Seq<char>>
    decreases modules.len(),
{
    if modules.len() == 0 {
        Seq::empty()
    } else {
        seq![
            cheat_line(modules[0], width, prefix_color, description_color, with_arg_ind,
                no_arg_ind),
        ] + cheat_lines(
            modules.skip(1),
            width,
            prefix_color,
            description_color,
            with_arg_ind,
            no_arg_ind,
        )
    }
}

/// The full text piped into the cheat-sheet viewer: a heading, then every
/// module's row.
pub open spec fn cheat_sheet_spec(
    modules: Seq<crate::settings::Module>,
    prefix_color: Seq<char>,
    description_color: Seq<char>,
    with_arg_ind: Seq<char>,
    no_arg_ind: Seq<char>,
) -> Seq<char> {
    seq!['\n', ' ', ' '] + prefix_color + "Configured Modules:\n\n"@ + sgr_reset() + join_with(
        cheat_lines(
            modules,
            max_prefix_len(modules),
            prefix_color,
            description_color,
            with_arg_ind,
            no_arg_ind,
        ),
        seq!['\n'],
    )
}

/// Formats the cheat sheet listing every configured module.
pub fn cheat_sheet_body(
    modules: &Vec<crate::settings::Module>,
    prefix_color: &str,
    description_color: &str,
    indicator_with_arg_module: &str,
    indicator_no_arg_module: &str,
) -> (r: String)
    ensures
        r@ == cheat_sheet_spec(
            modules@,
            prefix_color@,
            description_color@,
            indicator_with_arg_module@,
            indicator_no_arg_module@,
        ),
{
    let mut width: usize = 0;
    let mut i: usize = modules.len();
    proof {
        assert(modules@.skip(i as int) =~= Seq::<crate::settings::Module>::empty());
    }
    while i > 0
        invariant
            i <= modules@.len(),
            width == max_prefix_len(modules@.skip(i as int)),
        decreases i,
    {
        i = i - 1;
        proof {
            lemma_skip_one(modules@, i as int);
        }
        let pc = chars_of(modules[i].prefix.as_str());
        let stripped = crate::text::strip_ansi_chars(&pc);
        if stripped.len() > width {
            width = stripped.len();
        }
    }
    proof {
        assert(modules@.skip(0) =~= modules@);
    }
    let mut rows: Vec<String> = Vec::new();
    let mut k: usize = 0;
    let ghost all = modules@;
    proof {
        assert(views_of(rows@) =~= Seq::<Seq<char>>::empty());
        assert(cheat_lines(
            all,
            width as nat,
            prefix_color@,
            description_color@,
            indicator_with_arg_module@,
            indicator_no_arg_module@,
        ) =~= views_of(rows@) + cheat_lines(
            all.skip(0),
            width as nat,
            prefix_color@,
            description_color@,
            indicator_with_arg_module@,
            indicator_no_arg_module@,
        ));
    }
    while k < modules.len()
        invariant
            k <= modules@.len(),
            all == modules@,
            cheat_lines(
                all,
                width as nat,
                prefix_color@,
                description_color@,
                indicator_with_arg_module@,
                indicator_no_arg_module@,
            ) == views_of(rows@) + cheat_lines(
                all.skip(k as int),
                width as nat,
                prefix_color@,
                description_color@,
                indicator_with_arg_module@,
                indicator_no_arg_module@,
            ),
        decreases modules@.len() - k,
    {
        proof {
            lemma_skip_one(all, k as int);
        }
        let m = &modules[k];
        let mut row = String::new();
        push_char(&mut row, ' ');
        push_char(&mut row, ' ');
        push_char(&mut row, ' ');
        push_char(&mut row, ' ');
        row.append(prefix_color);
        let pc = chars_of(m.prefix.as_str());
        let padded = pad_to_exec(&pc, width);
        let padded_s = string_of(&padded);
        row.append(padded_s.as_str());
        append_sgr_reset(&mut row);
        push_char(&mut row, ' ');
        row.append(description_color);
        let arg_ind = match &m.with_argument {
            Some(b) => {
                if *b {
                    indicator_with_arg_module
                } else {
                    indicator_no_arg_module
                }
            },
            None => indicator_no_arg_module,
        };
        row.append(arg_ind);
        row.append(m.description.as_str());
        append_sgr_reset(&mut row);
        proof {
            assert(row@ =~= cheat_line(
                all[k as int],
                width as nat,
                prefix_color@,
                description_color@,
                indicator_with_arg_module@,
                indicator_no_arg_module@,
            ));
            assert(views_of(rows@.push(row)) =~= views_of(rows@) + seq![row@]);
        }
        rows.push(row);
        k = k + 1;
        proof {
            assert(cheat_lines(
                all,
                width as nat,
                prefix_color@,
                description_color@,
                indicator_with_arg_module@,
                indicator_no_arg_module@,
            ) =~= views_of(rows@) + cheat_lines(
                all.skip(k as int),
                width as nat,
                prefix_color@,
                description_color@,
                indicator_with_arg_module@,
                indicator_no_arg_module@,
            ));
        }
    }
    proof {
        assert(cheat_lines(
            all.skip(k as int),
            width as nat,
            prefix_color@,
            description_color@,
            indicator_with_arg_module@,
            indicator_no_arg_module@,
        ) =~= Seq::<Seq<char>>::empty());
        assert(views_of(rows@) =~= cheat_lines(
            all,
            width as nat,
            prefix_color@,
            description_color@,
            indicator_with_arg_module@,
            indicator_no_arg_module@,
        ));
    }
    let joined = join_with_exec(&rows, "\n");
    proof {
        reveal_strlit("\n");
        assert("\n"@ =~= seq!['\n']);
    }
    let mut body = String::new();
    push_char(&mut body, '\n');
    push_char(&mut body, ' ');
    push_char(&mut body, ' ');
    body.append(prefix_color);
    body.append("Configured Modules:\n\n");
    append_sgr_reset(&mut body);
    body.append(joined.as_str());
    proof {
        assert(body@ =~= cheat_sheet_spec(
            modules@,
            prefix_color@,
            description_color@,
            indicator_with_arg_module@,
            indicator_no_arg_module@,
        ));
    }
    body
}


/// Whether sizing the overlay will need the terminal's cell height: only
/// when no height is configured, no kitty rows were found, and sixel data
/// is present.
pub fn overlay_needs_cell_height(overlay: &str, cached: usize) -> (r: bool)
    ensures
        r == (cached == 0 && crate::graphics::kitty_rows_spec(overlay@) is None
            && crate::graphics::sixel_rows_spec(overlay@) is Some),
{
    cached == 0 && crate::graphics::kitty_rows(overlay).is_none() && crate::graphics::sixel_rows(
        overlay,
    ).is_some()
}

/// The text split at every line break, nothing dropped or trimmed.
pub open spec fn split_nl(s: Seq<char>) -> Seq<Seq<char>>
    decreases s.len(),
    via split_nl_decreases
{
    match crate::graphics::find_from(s, 0, '\n') {
        Some(j) => seq![s.subrange(0, j)] + split_nl(s.skip(j + 1)),
        None => seq![s],
    }
}

#[via_fn]
proof fn split_nl_decreases(s: Seq<char>) {
    crate::graphics::lemma_find_from_bounds(s, 0, '\n');
}

fn split_nl_exec(s: &str) -> (r: Vec<String>)
    ensures
        views_of(r@) == split_nl(s@),
{
    let chars = chars_of(s);
    let mut r: Vec<String> = Vec::new();
    let mut cur = sub_chars(&chars, 0, chars.len());
    proof {
        assert(cur@ =~= s@);
        assert(views_of(r@) =~= Seq::<Seq<char>>::empty());
    }
    loop
        invariant
            split_nl(s@) == views_of(r@) + split_nl(cur@),
        decreases cur@.len(),
    {
        match crate::graphics::find_from_exec(&cur, 0, '\n') {
            Some(j) => {
                let piece = string_of(&sub_chars(&cur, 0, j));
                let cl = cur.len();
                let rest = sub_chars(&cur, j + 1, cl);
                proof {
                    crate::graphics::lemma_find_from_bounds(cur@, 0, '\n');
                    assert(rest@ =~= cur@.skip(j as int + 1));
                    assert(views_of(r@.push(piece)) =~= views_of(r@) + seq![piece@]);
                }
                r.push(piece);
                proof {
                    assert(views_of(r@) + split_nl(rest@) =~= split_nl(s@));
                }
                cur = rest;
            },
            None => {
                let piece = string_of(&cur);
                proof {
                    assert(views_of(r@.push(piece)) =~= views_of(r@) + seq![piece@]);
                }
                r.push(piece);
                proof {
                    assert(views_of(r@) =~= split_nl(s@));
                }
                return r;
            },
        }
    }
}

/// `n` line breaks.
pub open spec fn newlines(n: nat) -> Seq<char>
    decreases n,
{
    if n == 0 {
        Seq::empty()
    } else {
        newlines((n - 1) as nat) + seq!['\n']
    }
}

/// The header command's output with its last `trimmed` lines dropped and
/// the rest rejoined; a notice when too few lines remain.
pub open spec fn header_trimmed(output: Seq<char>, trimmed: nat) -> Seq<char> {
    let lines = split_lines(output);
    if lines.len() >= trimmed {
        join_with(lines.subrange(0, (lines.len() - trimmed) as int), seq!['\n'])
    } else {
        "not enough lines of header_cmd output to be trimmed"@
    }
}

/// One header line shifted to the layout column: a cursor move, the
/// column's worth of spaces, another cursor move, then the line.
pub open spec fn pad_header_line(line: Seq<char>, right: nat) -> Seq<char> {
    csi_col(cap_inc(right)) + spaces(right) + csi_col(cap_inc(right)) + line
}

/// The prompt header: the trimmed header-command output, the downward
/// offset, a line break when a header command ran, then the expanded
/// header text line by line at the layout column.
pub open spec fn compose_header_spec(
    output: Seq<char>,
    header: Seq<char>,
    had_header_cmd: bool,
    right: nat,
    down: nat,
    trimmed: nat,
) -> Seq<char> {
    header_trimmed(output, trimmed) + newlines(down) + (if had_header_cmd {
        seq!['\n']
    } else {
        Seq::<char>::empty()
    }) + join_with(
        Seq::new(split_nl(header).len(), |i: int| pad_header_line(split_nl(header)[i], right)),
        seq!['\n'],
    )
}

/// Assembles the prompt header from the header command's captured output
/// and the expanded header text.
pub fn compose_header(
    header_cmd_output: &str,
    header_expanded: &str,
    had_header_cmd: bool,
    layout_rightward: usize,
    layout_downward: usize,
    header_cmd_trimmed_lines: usize,
) -> (r: String)
    ensures
        r@ == compose_header_spec(
            header_cmd_output@,
            header_expanded@,
            had_header_cmd,
            layout_rightward as nat,
            layout_downward as nat,
            header_cmd_trimmed_lines as nat,
        ),
{
    let lines = split_lines_exec(header_cmd_output);
    let remaining: String = if lines.len() >= header_cmd_trimmed_lines {
        let keep = lines.len() - header_cmd_trimmed_lines;
        let mut kept: Vec<String> = Vec::new();
        let mut i: usize = 0;
        while i < keep
            invariant
                keep <= lines@.len(),
                i <= keep,
                views_of(kept@) == views_of(lines@).subrange(0, i as int),
            decreases keep - i,
        {
            kept.push(lines[i].clone());
            i = i + 1;
            proof {
                assert(views_of(kept@) =~= views_of(lines@).subrange(0, i as int));
            }
        }
        let joined = join_with_exec(&kept, "\n");
        proof {
            reveal_strlit("\n");
            assert("\n"@ =~= seq!['\n']);
        }
        joined
    } else {
        String::from_str("not enough lines of header_cmd output to be trimmed")
    };
    let mut out = remaining;
    let mut d: usize = 0;
    while d < layout_downward
        invariant
            d <= layout_downward,
            out@ == header_trimmed(
                header_cmd_output@,
                header_cmd_trimmed_lines as nat,
            ) + newlines(d as nat),
        decreases layout_downward - d,
    {
        push_char(&mut out, '\n');
        d = d + 1;
        proof {
            assert(out@ =~= header_trimmed(
                header_cmd_output@,
                header_cmd_trimmed_lines as nat,
            ) + newlines(d as nat));
        }
    }
    if had_header_cmd {
        push_char(&mut out, '\n');
    }
    let pieces = split_nl_exec(header_expanded);
    let ghost piece_views = views_of(pieces@);
    let mut padded: Vec<String> = Vec::new();
    let mut k: usize = 0;
    while k < pieces.len()
        invariant
            k <= pieces@.len(),
            piece_views == views_of(pieces@),
            padded@.len() == k,
            forall|j: int|
                0 <= j < k ==> (#[trigger] views_of(padded@)[j]) == pad_header_line(
                    piece_views[j],
                    layout_rightward as nat,
                ),
        decreases pieces@.len() - k,
    {
        let mut row = String::new();
        append_csi_col(&mut row, cap_add_u(layout_rightward, 1));
        let mut sp: usize = 0;
        let ghost row0 = row@;
        while sp < layout_rightward
            invariant
                sp <= layout_rightward,
                row@ == row0 + spaces(sp as nat),
            decreases layout_rightward - sp,
        {
            push_char(&mut row, ' ');
            sp = sp + 1;
            proof {
                assert(row@ =~= row0 + spaces(sp as nat));
            }
        }
        append_csi_col(&mut row, cap_add_u(layout_rightward, 1));
        row.append(pieces[k].as_str());
        proof {
            assert(row@ =~= pad_header_line(piece_views[k as int], layout_rightward as nat));
        }
        let ghost prev = padded@;
        padded.push(row);
        k = k + 1;
        proof {
            assert forall|j: int|
                0 <= j < k implies (#[trigger] views_of(padded@)[j]) == pad_header_line(
                piece_views[j],
                layout_rightward as nat,
            ) by {
                assert(views_of(padded@)[j] == padded@[j]@);
                if j < k - 1 {
                    assert(padded@[j] == prev[j]);
                    assert(views_of(prev)[j] == prev[j]@);
                }
            }
        }
    }
    let joined = join_with_exec(&padded, "\n");
    proof {
        reveal_strlit("\n");
        assert("\n"@ =~= seq!['\n']);
        assert(views_of(padded@) =~= Seq::new(
            split_nl(header_expanded@).len(),
            |i: int| pad_header_line(split_nl(header_expanded@)[i], layout_rightward as nat),
        ));
    }
    out.append(joined.as_str());
    proof {
        assert(out@ =~= compose_header_spec(
            header_cmd_output@,
            header_expanded@,
            had_header_cmd,
            layout_rightward as nat,
            layout_downward as nat,
            header_cmd_trimmed_lines as nat,
        ));
    }
    out
}

} // verus!
