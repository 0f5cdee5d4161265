//! The text filter: turns the configured modules into hint labels, and on
//! every keystroke computes the ordered subset of labels matching the
//! typed line — prefix matches sorted before mere substring matches.

use crate::settings::Module;
use crate::text::{
    chars_of, contains_chars, contains_seq, first_token, first_token_chars, is_ws,
    remove_ascii, replace_space, replace_space_chars, starts_with_chars, starts_with_seq,
    strip_ansi, trim_end_chars, trim_end_spec, views_of,
};
use vstd::prelude::*;

verus! {

broadcast use crate::text::lemma_views_of_len, crate::text::lemma_views_of_index;

/// One formatted suggestion: the label shown in the list, how many leading
/// characters a completion replaces, and whether the module takes an
/// argument.
pub struct ModuleHint {
    pub display: String,
    pub completion: usize,
    pub w_arg: Option<bool>,
}

impl ModuleHint {
    /// Builds a hint whose completion range is the given prefix of `text`.
    pub fn new(text: &str, completion: &str, w_arg: Option<bool>) -> (h: ModuleHint)
        requires
            starts_with_seq(text@, completion@),
        ensures
            h.display@ == text@,
            h.completion == completion@.len(),
            h.w_arg == w_arg,
    {
        ModuleHint { display: text.to_owned(), completion: completion.unicode_len(), w_arg }
    }

    /// A copy of the hint padded with blank lines and a footer, keeping
    /// `strip_chars` characters as the completion range.
    pub fn suffix(&self, strip_chars: usize, padded_line_count: usize, footer: &str) -> (h:
        ModuleHint)
        ensures
            h.display@ == self.display@ + blank_lines(padded_line_count as nat) + footer@,
            h.completion == strip_chars,
            h.w_arg == self.w_arg,
    {
        let mut d = self.display.clone();
        let mut i: usize = 0;
        while i < padded_line_count
            invariant
                i <= padded_line_count,
                d@ == self.display@ + blank_lines(i as nat),
            decreases padded_line_count - i,
        {
            d.append("\n ");
            i = i + 1;
            proof {
                reveal_strlit("\n ");
                assert(d@ =~= self.display@ + blank_lines(i as nat));
            }
        }
        d.append(footer);
        ModuleHint { display: d, completion: strip_chars, w_arg: self.w_arg }
    }
}

/// `n` repetitions of a newline followed by a space, used as vertical
/// padding below the suggestion list.
pub open spec fn blank_lines(n: nat) -> Seq<char>
    decreases n,
{
    if n == 0 {
        Seq::empty()
    } else {
        blank_lines((n - 1) as nat) + seq!['\n', ' ']
    }
}

/// `w_arg.unwrap_or(false)`: does the hint's module take an argument?
pub open spec fn takes_arg(w_arg: Option<bool>) -> bool {
    w_arg is Some && w_arg->0
}

/// The label of one module: its prefix with colour codes stripped, a
/// space, the argument indicator, then the description.
pub open spec fn hint_label(m: Module, with_arg_ind: Seq<char>, no_arg_ind: Seq<char>) -> Seq<
    char,
> {
    strip_ansi(m.prefix@) + seq![' '] + (if takes_arg(m.with_argument) {
        with_arg_ind
    } else {
        no_arg_ind
    }) + m.description@
}

/// Formats one hint per configured module.
pub fn map_hints(
    modules: &Vec<Module>,
    indicator_with_arg_module: &str,
    indicator_no_arg_module: &str,
) -> (r: Vec<ModuleHint>)
    ensures
        r@.len() == modules@.len(),
        forall|i: int|
            0 <= i < r@.len() ==> {
                &&& (#[trigger] r@[i]).display@ == hint_label(
                    modules@[i],
                    indicator_with_arg_module@,
                    indicator_no_arg_module@,
                )
                &&& r@[i].completion == r@[i].display@.len()
                &&& r@[i].w_arg == modules@[i].with_argument
            },
{
    let mut r: Vec<ModuleHint> = Vec::new();
    let mut i: usize = 0;
    while i < modules.len()
        invariant
            i <= modules@.len(),
            r@.len() == i,
            forall|j: int|
                0 <= j < i ==> {
                    &&& (#[trigger] r@[j]).display@ == hint_label(
                        modules@[j],
                        indicator_with_arg_module@,
                        indicator_no_arg_module@,
                    )
                    &&& r@[j].completion == r@[j].display@.len()
                    &&& r@[j].w_arg == modules@[j].with_argument
                },
        decreases modules@.len() - i,
    {
        let m = &modules[i];
        let mut label = remove_ascii(m.prefix.as_str());
        push_space(&mut label);
        let arg_indicator = if matches_true(&m.with_argument) {
            indicator_with_arg_module
        } else {
            indicator_no_arg_module
        };
        label.append(arg_indicator);
        label.append(m.description.as_str());
        let n = label.unicode_len();
        let h = ModuleHint { display: label, completion: n, w_arg: m.with_argument };
        proof {
            assert(h.display@ =~= hint_label(
                modules@[i as int],
                indicator_with_arg_module@,
                indicator_no_arg_module@,
            ));
        }
        r.push(h);
        i = i + 1;
    }
    r
}

fn push_space(s: &mut String)
    ensures
        final(s)@ == old(s)@ + seq![' '],
{
    crate::text::push_char(s, ' ');
    proof {
        assert(final(s)@ =~= old(s)@ + seq![' ']);
    }
}

fn matches_true(o: &Option<bool>) -> (r: bool)
    ensures
        r == (*o == Some(true)),
{
    match o {
        Some(b) => *b,
        None => false,
    }
}

/// The line as it is matched against a label: for argument-taking modules
/// everything after the first token is ignored once a space was typed;
/// otherwise spaces are treated as the separator embedded in labels.
pub open spec fn adjusted_line(w_arg: bool, line: Seq<char>) -> Seq<char> {
    if w_arg {
        if line.contains(' ') {
            first_token(line) + seq![' ']
        } else {
            line
        }
    } else {
        replace_space(line)
    }
}

/// A hint matches when its colour-stripped label contains the adjusted,
/// right-trimmed input.
pub open spec fn hint_matches(display: Seq<char>, w_arg: bool, line: Seq<char>) -> bool {
    contains_seq(strip_ansi(display), trim_end_spec(adjusted_line(w_arg, line)))
}

/// The labels of the hints that match the line, in hint order.
pub open spec fn matched_displays(hints: Seq<ModuleHint>, line: Seq<char>) -> Seq<Seq<char>>
    decreases hints.len(),
{
    if hints.len() == 0 {
        Seq::empty()
    } else {
        let rest = matched_displays(hints.skip(1), line);
        if hint_matches(hints[0].display@, takes_arg(hints[0].w_arg), line) {
            seq![hints[0].display@] + rest
        } else {
            rest
        }
    }
}

/// Decides whether one hint matches the line.
pub fn hint_matches_exec(h: &ModuleHint, line: &Vec<char>) -> (r: bool)
    ensures
        r == hint_matches(h.display@, takes_arg(h.w_arg), line@),
{
    let adjusted: Vec<char> = if matches_true(&h.w_arg) {
        if vec_contains_space(line) {
            let mut t = first_token_chars(line);
            t.push(' ');
            proof {
                assert(t@ =~= first_token(line@) + seq![' ']);
            }
            t
        } else {
            line.clone()
        }
    } else {
        replace_space_chars(line)
    };
    let needle = trim_end_chars(&adjusted);
    let label = chars_of(h.display.as_str());
    let stripped = crate::text::strip_ansi_chars(&label);
    contains_chars(&stripped, &needle)
}

fn vec_contains_space(v: &Vec<char>) -> (r: bool)
    ensures
        r == v@.contains(' '),
{
    let mut i: usize = 0;
    while i < v.len()
        invariant
            i <= v@.len(),
            forall|j: int| 0 <= j < i ==> v@[j] != ' ',
        decreases v@.len() - i,
    {
        if v[i] == ' ' {
            return true;
        }
        i = i + 1;
    }
    false
}

/// Lexicographic order on character sequences, by scalar value.
pub open spec fn lex_le(a: Seq<char>, b: Seq<char>) -> bool
    decreases a.len(),
{
    if a.len() == 0 {
        true
    } else if b.len() == 0 {
        false
    } else if a[0] == b[0] {
        lex_le(a.skip(1), b.skip(1))
    } else {
        (a[0] as u32) < (b[0] as u32)
    }
}

/// Lexicographic comparison of two strings.
pub fn lex_le_exec(a: &str, b: &str) -> (r: bool)
    ensures
        r == lex_le(a@, b@),
{
    let an = a.unicode_len();
    let bn = b.unicode_len();
    let mut i: usize = 0;
    proof {
        assert(a@.skip(0) =~= a@);
        assert(b@.skip(0) =~= b@);
    }
    while i < an && i < bn
        invariant
            an == a@.len(),
            bn == b@.len(),
            i <= an,
            i <= bn,
            lex_le(a@, b@) == lex_le(a@.skip(i as int), b@.skip(i as int)),
        decreases an - i,
    {
        let ca = a.get_char(i);
        let cb = b.get_char(i);
        proof {
            crate::text::lemma_skip_one(a@, i as int);
            crate::text::lemma_skip_one(b@, i as int);
        }
        if ca != cb {
            return (ca as u32) < (cb as u32);
        }
        i = i + 1;
    }
    proof {
        if i == an {
            assert(a@.skip(i as int).len() == 0);
        } else {
            assert(b@.skip(i as int).len() == 0);
            assert(a@.skip(i as int).len() > 0);
        }
    }
    i == an
}

/// The sequence with `x` inserted before the first element not below it.
pub open spec fn insert_lex(x: Seq<char>, s: Seq<Seq<char>>) -> Seq<Seq<char>>
    decreases s.len(),
{
    if s.len() == 0 {
        seq![x]
    } else if lex_le(x, s[0]) {
        seq![x] + s
    } else {
        seq![s[0]] + insert_lex(x, s.skip(1))
    }
}

/// Insertion sort at the specification level: the unique sorted
/// arrangement of the input labels.
pub open spec fn sort_lex(s: Seq<Seq<char>>) -> Seq<Seq<char>>
    decreases s.len(),
{
    if s.len() == 0 {
        Seq::empty()
    } else {
        insert_lex(s[0], sort_lex(s.skip(1)))
    }
}

proof fn lemma_insert_lex_at(x: Seq<char>, s: Seq<Seq<char>>, j: int)
    requires
        0 <= j <= s.len(),
        forall|k: int| 0 <= k < j ==> !lex_le(x, #[trigger] s[k]),
        j < s.len() ==> lex_le(x, s[j]),
    ensures
        insert_lex(x, s) == s.subrange(0, j) + seq![x] + s.skip(j),
    decreases j,
{
    if j == 0 {
        if s.len() == 0 {
            assert(insert_lex(x, s) =~= s.subrange(0, 0) + seq![x] + s.skip(0));
        } else {
            assert(insert_lex(x, s) =~= s.subrange(0, 0) + seq![x] + s.skip(0));
        }
    } else {
        assert(!lex_le(x, s[0]));
        lemma_insert_lex_at(x, s.skip(1), j - 1);
        assert(seq![s[0]] + (s.skip(1).subrange(0, j - 1) + seq![x] + s.skip(1).skip(j - 1))
            =~= s.subrange(0, j) + seq![x] + s.skip(j));
    }
}

fn insert_sorted(x: String, v: Vec<String>) -> (r: Vec<String>)
    ensures
        views_of(r@) == insert_lex(x@, views_of(v@)),
{
    let mut j: usize = 0;
    while j < v.len() && !lex_le_exec(x.as_str(), v[j].as_str())
        invariant
            j <= v@.len(),
            forall|k: int| 0 <= k < j ==> !lex_le(x@, #[trigger] views_of(v@)[k]),
        decreases v@.len() - j,
    {
        j = j + 1;
    }
    proof {
        lemma_insert_lex_at(x@, views_of(v@), j as int);
    }
    let mut r: Vec<String> = Vec::new();
    let mut i: usize = 0;
    while i < j
        invariant
            i <= j <= v@.len(),
            views_of(r@) == views_of(v@).subrange(0, i as int),
        decreases j - i,
    {
        r.push(v[i].clone());
        i = i + 1;
        proof {
            assert(views_of(r@) =~= views_of(v@).subrange(0, i as int));
        }
    }
    r.push(x);
    proof {
        assert(views_of(r@) =~= views_of(v@).subrange(0, j as int) + seq![x@]);
    }
    let mut i2: usize = j;
    while i2 < v.len()
        invariant
            j <= i2 <= v@.len(),
            views_of(r@) == views_of(v@).subrange(0, j as int) + seq![x@] + views_of(
                v@,
            ).subrange(j as int, i2 as int),
        decreases v@.len() - i2,
    {
        r.push(v[i2].clone());
        i2 = i2 + 1;
        proof {
            assert(views_of(r@) =~= views_of(v@).subrange(0, j as int) + seq![x@] + views_of(
                v@,
            ).subrange(j as int, i2 as int));
        }
    }
    proof {
        assert(views_of(v@).subrange(j as int, v@.len() as int) =~= views_of(v@).skip(j as int));
        assert(views_of(r@) =~= views_of(v@).subrange(0, j as int) + seq![x@] + views_of(v@).skip(
            j as int,
        ));
    }
    r
}

/// Sorts labels lexicographically; the result is exactly `sort_lex` of
/// the input views.
pub fn sort_labels(v: &Vec<String>) -> (r: Vec<String>)
    ensures
        views_of(r@) == sort_lex(views_of(v@)),
{
    let mut r: Vec<String> = Vec::new();
    let mut i: usize = v.len();
    proof {
        assert(views_of(v@).skip(i as int) =~= Seq::<Seq<char>>::empty());
        assert(views_of(r@) =~= sort_lex(views_of(v@).skip(i as int)));
    }
    while i > 0
        invariant
            i <= v@.len(),
            views_of(r@) == sort_lex(views_of(v@).skip(i as int)),
        decreases i,
    {
        i = i - 1;
        proof {
            crate::text::lemma_skip_one(views_of(v@), i as int);
        }
        r = insert_sorted(v[i].clone(), r);
    }
    proof {
        assert(views_of(v@).skip(0) =~= views_of(v@));
    }
    r
}

/// The elements whose prefix relation to `tok` equals `want`, in order.
pub open spec fn keep_front(s: Seq<Seq<char>>, tok: Seq<char>, want: bool) -> Seq<Seq<char>>
    decreases s.len(),
{
    if s.len() == 0 {
        Seq::empty()
    } else if starts_with_seq(s[0], tok) == want {
        seq![s[0]] + keep_front(s.skip(1), tok, want)
    } else {
        keep_front(s.skip(1), tok, want)
    }
}

fn keep_exec(v: &Vec<String>, tok: &Vec<char>, want: bool) -> (r: Vec<String>)
    ensures
        views_of(r@) == keep_front(views_of(v@), tok@, want),
{
    let mut r: Vec<String> = Vec::new();
    let mut i: usize = 0;
    let ghost all = views_of(v@);
    proof {
        assert(all.skip(0) =~= all);
    }
    while i < v.len()
        invariant
            i <= v@.len(),
            all == views_of(v@),
            keep_front(all, tok@, want) == views_of(r@) + keep_front(
                all.skip(i as int),
                tok@,
                want,
            ),
        decreases v@.len() - i,
    {
        proof {
            crate::text::lemma_skip_one(all, i as int);
        }
        let label_chars = chars_of(v[i].as_str());
        if starts_with_chars(&label_chars, tok) == want {
            r.push(v[i].clone());
            proof {
                assert(views_of(r@) =~= views_of(r@.drop_last()) + seq![all[i as int]]);
            }
        }
        i = i + 1;
        proof {
            assert(keep_front(all, tok@, want) =~= views_of(r@) + keep_front(
                all.skip(i as int),
                tok@,
                want,
            ));
        }
    }
    proof {
        assert(keep_front(all.skip(i as int), tok@, want) =~= Seq::<Seq<char>>::empty());
        assert(views_of(r@) =~= keep_front(all, tok@, want));
    }
    r
}

/// What the filter hands to the pager and renderer: the matching labels,
/// sorted unless the configured order is kept, prefix matches first.
pub open spec fn filtered_labels(
    hints: Seq<ModuleHint>,
    line: Seq<char>,
    customized_list_order: bool,
) -> Seq<Seq<char>> {
    let m = matched_displays(hints, line);
    let s = if customized_list_order {
        m
    } else {
        sort_lex(m)
    };
    keep_front(s, first_token(line), true) + keep_front(s, first_token(line), false)
}

/// Computes the filtered, ordered label list for the typed line.
pub fn filter_labels(hints: &Vec<ModuleHint>, line: &str, customized_list_order: bool) -> (r:
    Vec<String>)
    ensures
        views_of(r@) == filtered_labels(hints@, line@, customized_list_order),
{
    let line_chars = chars_of(line);
    let mut matched: Vec<String> = Vec::new();
    let mut i: usize = 0;
    proof {
        assert(hints@.skip(0) =~= hints@);
    }
    while i < hints.len()
        invariant
            i <= hints@.len(),
            line_chars@ == line@,
            matched_displays(hints@, line@) == views_of(matched@) + matched_displays(
                hints@.skip(i as int),
                line@,
            ),
        decreases hints@.len() - i,
    {
        proof {
            crate::text::lemma_skip_one(hints@, i as int);
        }
        if hint_matches_exec(&hints[i], &line_chars) {
            matched.push(hints[i].display.clone());
            proof {
                assert(views_of(matched@) =~= views_of(matched@.drop_last()) + seq![hints@[
                    i as int].display@]);
            }
        }
        i = i + 1;
        proof {
            assert(matched_displays(hints@, line@) =~= views_of(matched@) + matched_displays(
                hints@.skip(i as int),
                line@,
            ));
        }
    }
    proof {
        assert(matched_displays(hints@.skip(i as int), line@) =~= Seq::<Seq<char>>::empty());
        assert(views_of(matched@) =~= matched_displays(hints@, line@));
    }
    let ordered: Vec<String> = if customized_list_order {
        matched
    } else {
        sort_labels(&matched)
    };
    let tok = first_token_chars(&line_chars);
    let mut front = keep_exec(&ordered, &tok, true);
    let back = keep_exec(&ordered, &tok, false);
    let mut i2: usize = 0;
    let ghost front0 = views_of(front@);
    while i2 < back.len()
        invariant
            i2 <= back@.len(),
            views_of(front@) == front0 + views_of(back@).subrange(0, i2 as int),
        decreases back@.len() - i2,
    {
        front.push(back[i2].clone());
        i2 = i2 + 1;
        proof {
            assert(views_of(front@) =~= front0 + views_of(back@).subrange(0, i2 as int));
        }
    }
    proof {
        assert(views_of(back@).subrange(0, back@.len() as int) =~= views_of(back@));
        assert(views_of(front@) =~= filtered_labels(hints@, line@, customized_list_order));
    }
    front
}


proof fn lemma_needle_extends(w: bool, line: Seq<char>, x: char)
    requires
        forall|i: int| 0 <= i < line.len() && is_ws(#[trigger] line[i]) ==> line[i] == ' ',
    ensures
        contains_seq(
            trim_end_spec(adjusted_line(w, line.push(x))),
            trim_end_spec(adjusted_line(w, line)),
        ),
{
    let line2 = line.push(x);
    let a1 = trim_end_spec(adjusted_line(w, line));
    let a2 = trim_end_spec(adjusted_line(w, line2));
    if w {
        if line.contains(' ') {
            let j = choose|j: int| 0 <= j < line.len() && line[j] == ' ';
            assert(line2[j] == ' ');
            assert(line2.contains(' '));
            crate::text::lemma_first_token_ws_free(line);
            crate::text::lemma_trim_token_space(first_token(line));
            crate::text::lemma_first_token_ws_free(line2);
            crate::text::lemma_trim_token_space(first_token(line2));
            crate::text::lemma_first_token_push(line, x);
            crate::text::lemma_prefix_contains(first_token(line2), first_token(line));
        } else if x == ' ' {
            assert forall|i: int| 0 <= i < line.len() implies !is_ws(#[trigger] line[i]) by {
                if line[i] == ' ' {
                    assert(line.contains(' '));
                }
            }
            assert(line2[line.len() as int] == ' ');
            assert(line2.contains(' '));
            crate::text::lemma_first_token_ws_free(line2);
            crate::text::lemma_trim_token_space(first_token(line2));
            crate::text::lemma_trim_ws_free(line);
            crate::text::lemma_first_token_ws_free_self(line);
            crate::text::lemma_first_token_push(line, x);
            crate::text::lemma_prefix_contains(first_token(line2), first_token(line));
        } else {
            assert(!line2.contains(' ')) by {
                if line2.contains(' ') {
                    let j = choose|j: int| 0 <= j < line2.len() && line2[j] == ' ';
                    if j < line.len() {
                        assert(line[j] == ' ');
                        assert(line.contains(' '));
                    }
                }
            }
            if is_ws(x) {
                assert(line2[line2.len() - 1] == x);
                assert(line2.drop_last() =~= line);
                assert(a2 == a1);
                crate::text::lemma_contains_self(a1);
            } else {
                assert(line2[line2.len() - 1] == x);
                assert(a2 == line2);
                crate::text::lemma_trim_end_prefix(line);
                assert(line2.subrange(0, a1.len() as int) =~= line.subrange(
                    0,
                    a1.len() as int,
                ));
                crate::text::lemma_prefix_contains(line2, a1);
            }
        }
    } else {
        let r1 = replace_space(line);
        let x2 = if x == ' ' {
            '\n'
        } else {
            x
        };
        assert(replace_space(line2) =~= r1.push(x2));
        if is_ws(x2) {
            assert(r1.push(x2)[r1.push(x2).len() - 1] == x2);
            assert(r1.push(x2).drop_last() =~= r1);
            assert(a2 == a1);
            crate::text::lemma_contains_self(a1);
        } else {
            assert(r1.push(x2)[r1.push(x2).len() - 1] == x2);
            assert(a2 == r1.push(x2));
            crate::text::lemma_trim_end_prefix(r1);
            assert(r1.push(x2).subrange(0, a1.len() as int) =~= r1.subrange(
                0,
                a1.len() as int,
            ));
            crate::text::lemma_prefix_contains(r1.push(x2), a1);
        }
    }
}

/// Filter monotonicity under narrowing input: a hint that still matches
/// after one more character was typed already matched the shorter line.
/// The law asks that the line's whitespace be plain spaces, as typed
/// input is: a tab or line break inside the line can defeat it.
pub proof fn lemma_filter_narrowing(h: ModuleHint, line: Seq<char>, x: char)
    requires
        forall|i: int| 0 <= i < line.len() && is_ws(#[trigger] line[i]) ==> line[i] == ' ',
    ensures
        hint_matches(h.display@, takes_arg(h.w_arg), line.push(x)) ==> hint_matches(
            h.display@,
            takes_arg(h.w_arg),
            line,
        ),
{
    let w = takes_arg(h.w_arg);
    lemma_needle_extends(w, line, x);
    if hint_matches(h.display@, w, line.push(x)) {
        crate::text::lemma_contains_trans(
            strip_ansi(h.display@),
            trim_end_spec(adjusted_line(w, line.push(x))),
            trim_end_spec(adjusted_line(w, line)),
        );
    }
}

/// The labels of all hints, in order.
pub open spec fn displays_of(hints: Seq<ModuleHint>) -> Seq<Seq<char>> {
    Seq::new(hints.len(), |i: int| hints[i].display@)
}

/// Every hint matches the empty line.
pub proof fn lemma_empty_line_matches(display: Seq<char>, w_arg: bool)
    ensures
        hint_matches(display, w_arg, Seq::empty()),
{
    let e = Seq::<char>::empty();
    assert(!e.contains(' '));
    assert(replace_space(e) =~= e);
    assert(trim_end_spec(adjusted_line(w_arg, e)) == e);
    assert(strip_ansi(display).subrange(0, 0 + e.len() as int) =~= e);
}

proof fn lemma_matched_all_empty(hints: Seq<ModuleHint>)
    ensures
        matched_displays(hints, Seq::empty()) == displays_of(hints),
    decreases hints.len(),
{
    if hints.len() == 0 {
        assert(matched_displays(hints, Seq::empty()) =~= displays_of(hints));
    } else {
        lemma_empty_line_matches(hints[0].display@, takes_arg(hints[0].w_arg));
        lemma_matched_all_empty(hints.skip(1));
        assert(matched_displays(hints, Seq::empty()) =~= displays_of(hints));
    }
}

proof fn lemma_insert_lex_len(x: Seq<char>, s: Seq<Seq<char>>)
    ensures
        insert_lex(x, s).len() == s.len() + 1,
    decreases s.len(),
{
    if s.len() > 0 && !lex_le(x, s[0]) {
        lemma_insert_lex_len(x, s.skip(1));
    }
}

proof fn lemma_sort_lex_len(s: Seq<Seq<char>>)
    ensures
        sort_lex(s).len() == s.len(),
    decreases s.len(),
{
    if s.len() > 0 {
        lemma_sort_lex_len(s.skip(1));
        lemma_insert_lex_len(s[0], sort_lex(s.skip(1)));
    }
}

proof fn lemma_keep_front_len(s: Seq<Seq<char>>, tok: Seq<char>)
    ensures
        keep_front(s, tok, true).len() + keep_front(s, tok, false).len() == s.len(),
    decreases s.len(),
{
    if s.len() > 0 {
        lemma_keep_front_len(s.skip(1), tok);
    }
}

/// Round trip on empty input: with nothing typed every module matches, so
/// the filtered list holds exactly one entry per configured hint, however
/// the sort-policy flag is set.
pub proof fn lemma_filter_empty_input(hints: Seq<ModuleHint>, customized_list_order: bool)
    ensures
        matched_displays(hints, Seq::empty()) == displays_of(hints),
        filtered_labels(hints, Seq::empty(), customized_list_order).len() == hints.len(),
{
    lemma_matched_all_empty(hints);
    let m = matched_displays(hints, Seq::empty());
    let s = if customized_list_order {
        m
    } else {
        sort_lex(m)
    };
    if !customized_list_order {
        lemma_sort_lex_len(m);
    }
    lemma_keep_front_len(s, first_token(Seq::empty()));
}

} // verus!
