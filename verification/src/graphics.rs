//! Inline-image sizing: scans raw terminal output for kitty and sixel
//! graphics blocks and computes how many rows they occupy, so the
//! renderer can reserve vertical space.

use crate::text::{block_views, chars_of, esc, lemma_skip_one, pair_views};
use vstd::prelude::*;

verus! {

broadcast use crate::text::lemma_block_views_len, crate::text::lemma_block_views_index,
    crate::text::lemma_pair_views_len, crate::text::lemma_pair_views_index;

/// `a + b`, capped at the largest machine integer.
pub open spec fn cap_add(a: nat, b: nat) -> nat {
    if a + b > usize::MAX {
        usize::MAX as nat
    } else {
        a + b
    }
}

fn cap_add_usize(a: usize, b: usize) -> (r: usize)
    ensures
        r == cap_add(a as nat, b as nat),
{
    if a <= usize::MAX - b {
        a + b
    } else {
        usize::MAX
    }
}

/// The value of a decimal digit sequence prefix `s[0..k]`.
pub open spec fn digits_val(s: Seq<char>, k: int) -> nat
    decreases k,
{
    if k <= 0 {
        0
    } else {
        (digits_val(s, k - 1) * 10 + s[k - 1] as nat - '0' as nat) as nat
    }
}

/// Every character of `s` is a decimal digit.
pub open spec fn all_digits(s: Seq<char>) -> bool {
    forall|i: int| 0 <= i < s.len() ==> '0' <= #[trigger] s[i] && s[i] <= '9'
}

/// What `str::parse::<usize>` accepts: an optional leading `+`, then one
/// or more decimal digits, rejecting values that overflow.
pub open spec fn parse_usize_spec(v: Seq<char>) -> Option<nat> {
    let w = if v.len() > 0 && v[0] == '+' {
        v.skip(1)
    } else {
        v
    };
    if w.len() > 0 && all_digits(w) && digits_val(w, w.len() as int) <= usize::MAX {
        Some(digits_val(w, w.len() as int))
    } else {
        None
    }
}

/// Parses a decimal number.
///
/// Relies on std's `str::parse::<usize>`: accepts an optional leading `+`
/// followed by decimal digits, and fails on anything else or on overflow.
#[verifier::external_body]
pub fn parse_usize(v: &str) -> (r: Option<usize>)
    ensures
        r is Some <==> parse_usize_spec(v@) is Some,
        r is Some ==> r->0 == parse_usize_spec(v@)->0,
{
    v.parse::<usize>().ok()
}

/// The first position of `c` in `s` at or after `i`, if any.
pub open spec fn find_from(s: Seq<char>, i: int, c: char) -> Option<int>
    decreases s.len() - i,
{
    if i < 0 || i >= s.len() {
        None
    } else if s[i] == c {
        Some(i)
    } else {
        find_from(s, i + 1, c)
    }
}

pub proof fn lemma_find_from_bounds(s: Seq<char>, i: int, c: char)
    requires
        0 <= i,
    ensures
        find_from(s, i, c) is Some ==> {
            let j = find_from(s, i, c)->0;
            i <= j < s.len() && s[j] == c
        },
    decreases s.len() - i,
{
    if i < s.len() && s[i] != c {
        lemma_find_from_bounds(s, i + 1, c);
    }
}

pub fn find_from_exec(s: &Vec<char>, i: usize, c: char) -> (r: Option<usize>)
    requires
        i <= s@.len(),
    ensures
        r is Some <==> find_from(s@, i as int, c) is Some,
        r is Some ==> r->0 == find_from(s@, i as int, c)->0 && i <= r->0 < s@.len(),
    decreases s@.len() - i,
{
    if i >= s.len() {
        None
    } else if s[i] == c {
        Some(i)
    } else {
        find_from_exec(s, i + 1, c)
    }
}

/// Where a kitty block body starting at `i` ends: the position of the
/// earliest terminator (string terminator `ESC \`, its single-character
/// form, or the bell) and the position just past it. The body may not
/// cross a line break.
pub open spec fn kitty_term(s: Seq<char>, i: int) -> Option<(int, int)>
    decreases s.len() - i,
{
    if i < 0 || i >= s.len() {
        None
    } else if s[i] == esc() && i + 1 < s.len() && s[i + 1] == '\\' {
        Some((i, i + 2))
    } else if s[i] == '\u{9c}' || s[i] == '\u{7}' {
        Some((i, i + 1))
    } else if s[i] == '\n' {
        None
    } else {
        kitty_term(s, i + 1)
    }
}

proof fn lemma_kitty_term_bounds(s: Seq<char>, i: int)
    requires
        0 <= i,
    ensures
        kitty_term(s, i) is Some ==> {
            let (be, me) = kitty_term(s, i)->0;
            i <= be && be < me <= s.len()
        },
    decreases s.len() - i,
{
    if 0 <= i < s.len() {
        if s[i] == esc() && i + 1 < s.len() && s[i + 1] == '\\' {
        } else if s[i] == '\u{9c}' || s[i] == '\u{7}' {
        } else if s[i] == '\n' {
        } else {
            lemma_kitty_term_bounds(s, i + 1);
        }
    }
}

fn kitty_term_exec(s: &Vec<char>, i: usize) -> (r: Option<(usize, usize)>)
    requires
        i <= s@.len(),
    ensures
        r is Some <==> kitty_term(s@, i as int) is Some,
        r is Some ==> {
            let (be, me) = r->0;
            kitty_term(s@, i as int)->0 == (be as int, me as int) && i <= be && be < me <= s@.len()
        },
    decreases s@.len() - i,
{
    if i >= s.len() {
        None
    } else if s[i] == '\u{1b}' && i + 1 < s.len() && s[i + 1] == '\\' {
        Some((i, i + 2))
    } else if s[i] == '\u{9c}' || s[i] == '\u{7}' {
        Some((i, i + 1))
    } else if s[i] == '\n' {
        None
    } else {
        kitty_term_exec(s, i + 1)
    }
}

/// The bodies of all kitty graphics blocks (`ESC _G ... terminator`)
/// found scanning left to right from position `i`.
pub open spec fn kitty_blocks(s: Seq<char>, i: int) -> Seq<Seq<char>>
    decreases s.len() - i,
    via kitty_blocks_decreases
{
    if i < 0 || i + 3 > s.len() {
        Seq::empty()
    } else if s[i] == esc() && s[i + 1] == '_' && s[i + 2] == 'G' && kitty_term(s, i + 3)
        is Some {
        let (be, me) = kitty_term(s, i + 3)->0;
        seq![s.subrange(i + 3, be)] + kitty_blocks(s, me)
    } else {
        kitty_blocks(s, i + 1)
    }
}

#[via_fn]
proof fn kitty_blocks_decreases(s: Seq<char>, i: int) {
    if !(i < 0 || i + 3 > s.len()) {
        if s[i] == esc() && s[i + 1] == '_' && s[i + 2] == 'G' && kitty_term(s, i + 3) is Some {
            lemma_kitty_term_bounds(s, i + 3);
        }
    }
}

fn kitty_blocks_exec(s: &Vec<char>) -> (r: Vec<Vec<char>>)
    ensures
        block_views(r@) == kitty_blocks(s@, 0),
{
    let mut r: Vec<Vec<char>> = Vec::new();
    let mut i: usize = 0;
    while s.len() >= 3 && i <= s.len() - 3
        invariant
            i <= s@.len(),
            kitty_blocks(s@, 0) == block_views(r@) + kitty_blocks(s@, i as int),
        decreases s@.len() - i,
    {
        if s[i] == '\u{1b}' && s[i + 1] == '_' && s[i + 2] == 'G' {
            match kitty_term_exec(s, i + 3) {
                Some((be, me)) => {
                    let mut body: Vec<char> = Vec::new();
                    let mut k: usize = i + 3;
                    while k < be
                        invariant
                            i + 3 <= k <= be <= s@.len(),
                            body@ == s@.subrange(i + 3 as int, k as int),
                        decreases be - k,
                    {
                        body.push(s[k]);
                        k = k + 1;
                        proof {
                            assert(body@ =~= s@.subrange(i + 3 as int, k as int));
                        }
                    }
                    proof {
                        assert(block_views(r@.push(body)) =~= block_views(r@) + seq![body@]);
                    }
                    r.push(body);
                    proof {
                        assert(block_views(r@) + kitty_blocks(s@, me as int) =~= kitty_blocks(
                            s@,
                            0,
                        ));
                    }
                    i = me;
                },
                None => {
                    i = i + 1;
                },
            }
        } else {
            i = i + 1;
        }
    }
    proof {
        assert(kitty_blocks(s@, i as int) =~= Seq::<Seq<char>>::empty());
        assert(block_views(r@) =~= kitty_blocks(s@, 0));
    }
    r
}

/// The parameter segment of a block body: everything before the first
/// `;`, or the whole body where there is none.
pub open spec fn params_of(body: Seq<char>) -> Seq<char> {
    match find_from(body, 0, ';') {
        Some(j) => body.subrange(0, j),
        None => body,
    }
}

/// Folds one comma-separated `key=value` part into the running
/// image id and row count.
pub open spec fn part_update(part: Seq<char>, id: Option<Seq<char>>, rows: Option<nat>) -> (
    Option<Seq<char>>,
    Option<nat>,
) {
    match find_from(part, 0, '=') {
        Some(e) => {
            let k = part.subrange(0, e);
            let v = part.skip(e + 1);
            if k == seq!['i'] {
                (Some(v), rows)
            } else if k == seq!['r'] {
                (id, parse_usize_spec(v))
            } else {
                (id, rows)
            }
        },
        None => (id, rows),
    }
}

/// The image id and row count carried by a parameter segment: its
/// comma-separated parts folded left to right.
pub open spec fn params_info(params: Seq<char>, id: Option<Seq<char>>, rows: Option<nat>) -> (
    Option<Seq<char>>,
    Option<nat>,
)
    decreases params.len(),
    via params_info_decreases
{
    match find_from(params, 0, ',') {
        Some(ci) => {
            let (id2, rows2) = part_update(params.subrange(0, ci), id, rows);
            params_info(params.skip(ci + 1), id2, rows2)
        },
        None => part_update(params, id, rows),
    }
}

#[via_fn]
proof fn params_info_decreases(params: Seq<char>, id: Option<Seq<char>>, rows: Option<nat>) {
    lemma_find_from_bounds(params, 0, ',');
}

fn subrange_exec(s: &Vec<char>, from: usize, to: usize) -> (r: Vec<char>)
    requires
        from <= to <= s@.len(),
    ensures
        r@ == s@.subrange(from as int, to as int),
{
    let mut r: Vec<char> = Vec::new();
    let mut k: usize = from;
    while k < to
        invariant
            from <= k <= to <= s@.len(),
            r@ == s@.subrange(from as int, k as int),
        decreases to - k,
    {
        r.push(s[k]);
        k = k + 1;
        proof {
            assert(r@ =~= s@.subrange(from as int, k as int));
        }
    }
    r
}

fn part_update_exec(part: &Vec<char>, id: Option<Vec<char>>, rows: Option<usize>) -> (r: (
    Option<Vec<char>>,
    Option<usize>,
))
    ensures
        opt_view(r.0) == part_update(part@, opt_view(id), opt_nat(rows)).0,
        opt_nat(r.1) == part_update(part@, opt_view(id), opt_nat(rows)).1,
{
    match find_from_exec(part, 0, '=') {
        Some(e) => {
            let k = subrange_exec(part, 0, e);
            let pl = part.len();
            let v = subrange_exec(part, e + 1, pl);
            proof {
                assert(v@ =~= part@.skip(e as int + 1));
            }
            if k.len() == 1 && k[0] == 'i' {
                proof {
                    assert(k@ =~= seq!['i']);
                }
                (Some(v), rows)
            } else if k.len() == 1 && k[0] == 'r' {
                proof {
                    assert(k@ =~= seq!['r']);
                    if k@ == seq!['i'] {
                        assert(k@[0] == 'i');
                    }
                }
                let s = crate::text::string_of(&v);
                (id, parse_usize(s.as_str()))
            } else {
                proof {
                    if k@ == seq!['i'] {
                        assert(k@.len() == 1 && k@[0] == 'i');
                    }
                    if k@ == seq!['r'] {
                        assert(k@.len() == 1 && k@[0] == 'r');
                    }
                }
                (id, rows)
            }
        },
        None => (id, rows),
    }
}

/// The view of an optional character vector.
pub open spec fn opt_view(o: Option<Vec<char>>) -> Option<Seq<char>> {
    match o {
        Some(v) => Some(v@),
        None => None,
    }
}

/// An optional machine integer as an optional natural.
pub open spec fn opt_nat(o: Option<usize>) -> Option<nat> {
    match o {
        Some(v) => Some(v as nat),
        None => None,
    }
}

fn params_info_exec(params: &Vec<char>) -> (r: (Option<Vec<char>>, Option<usize>))
    ensures
        opt_view(r.0) == params_info(params@, None, None).0,
        opt_nat(r.1) == params_info(params@, None, None).1,
{
    let mut cur = subrange_exec(params, 0, params.len());
    proof {
        assert(cur@ =~= params@);
    }
    let mut id: Option<Vec<char>> = None;
    let mut rows: Option<usize> = None;
    loop
        invariant
            params_info(params@, None, None) == params_info(cur@, opt_view(id), opt_nat(rows)),
        decreases cur@.len(),
    {
        match find_from_exec(&cur, 0, ',') {
            Some(ci) => {
                let part = subrange_exec(&cur, 0, ci);
                let cl = cur.len();
                let rest = subrange_exec(&cur, ci + 1, cl);
                proof {
                    assert(rest@ =~= cur@.skip(ci as int + 1));
                    lemma_find_from_bounds(cur@, 0, ',');
                }
                let nxt = part_update_exec(&part, id, rows);
                id = nxt.0;
                rows = nxt.1;
                cur = rest;
            },
            None => {
                let fin = part_update_exec(&cur, id, rows);
                return fin;
            },
        }
    }
}

/// The running per-image row table with one observation folded in: a known
/// image id keeps the largest row count seen, a new id is appended.
pub open spec fn upd_assoc(m: Seq<(Seq<char>, nat)>, id: Seq<char>, r: nat) -> Seq<
    (Seq<char>, nat),
>
    decreases m.len(),
{
    if m.len() == 0 {
        seq![(id, r)]
    } else if m[0].0 == id {
        seq![(m[0].0, if r > m[0].1 { r } else { m[0].1 })] + m.skip(1)
    } else {
        seq![m[0]] + upd_assoc(m.skip(1), id, r)
    }
}

proof fn lemma_upd_assoc_at(m: Seq<(Seq<char>, nat)>, id: Seq<char>, r: nat, j: int)
    requires
        0 <= j <= m.len(),
        forall|k: int| 0 <= k < j ==> (#[trigger] m[k]).0 != id,
        j < m.len() ==> m[j].0 == id,
    ensures
        j < m.len() ==> upd_assoc(m, id, r) == m.subrange(0, j) + seq![
            (id, if r > m[j].1 { r } else { m[j].1 }),
        ] + m.skip(j + 1),
        j == m.len() ==> upd_assoc(m, id, r) == m + seq![(id, r)],
    decreases j,
{
    if j == 0 {
        if 0 < m.len() {
            assert(upd_assoc(m, id, r) =~= m.subrange(0, 0) + seq![
                (id, if r > m[0].1 { r } else { m[0].1 }),
            ] + m.skip(1));
        } else {
            assert(upd_assoc(m, id, r) =~= m + seq![(id, r)]);
        }
    } else {
        assert(m[0].0 != id);
        lemma_upd_assoc_at(m.skip(1), id, r, j - 1);
        if j < m.len() {
            assert(seq![m[0]] + (m.skip(1).subrange(0, j - 1) + seq![
                (id, if r > m.skip(1)[j - 1].1 { r } else { m.skip(1)[j - 1].1 }),
            ] + m.skip(1).skip(j)) =~= m.subrange(0, j) + seq![
                (id, if r > m[j].1 { r } else { m[j].1 }),
            ] + m.skip(j + 1));
        } else {
            assert(seq![m[0]] + (m.skip(1) + seq![(id, r)]) =~= m + seq![(id, r)]);
        }
    }
}

fn vec_char_eq(a: &Vec<char>, b: &Vec<char>) -> (r: bool)
    ensures
        r == (a@ == b@),
{
    if a.len() != b.len() {
        return false;
    }
    let mut i: usize = 0;
    while i < a.len()
        invariant
            a@.len() == b@.len(),
            i <= a@.len(),
            forall|k: int| 0 <= k < i ==> a@[k] == b@[k],
        decreases a@.len() - i,
    {
        if a[i] != b[i] {
            return false;
        }
        i = i + 1;
    }
    proof {
        assert(a@ =~= b@);
    }
    true
}

fn upd_assoc_exec(m: &Vec<(Vec<char>, usize)>, id: &Vec<char>, r: usize) -> (out: Vec<
    (Vec<char>, usize),
>)
    ensures
        pair_views(out@) == upd_assoc(pair_views(m@), id@, r as nat),
{
    let mut j: usize = 0;
    while j < m.len() && !vec_char_eq(&m[j].0, id)
        invariant
            j <= m@.len(),
            forall|k: int| 0 <= k < j ==> (#[trigger] pair_views(m@)[k]).0 != id@,
        decreases m@.len() - j,
    {
        j = j + 1;
    }
    proof {
        lemma_upd_assoc_at(pair_views(m@), id@, r as nat, j as int);
    }
    let mut out: Vec<(Vec<char>, usize)> = Vec::new();
    let mut i: usize = 0;
    while i < j
        invariant
            i <= j <= m@.len(),
            pair_views(out@) == pair_views(m@).subrange(0, i as int),
        decreases j - i,
    {
        out.push((subrange_exec(&m[i].0, 0, m[i].0.len()), m[i].1));
        i = i + 1;
        proof {
            assert(m@[i - 1].0@.subrange(0, m@[i - 1].0@.len() as int) =~= m@[i - 1].0@);
            assert(pair_views(out@) =~= pair_views(m@).subrange(0, i as int));
        }
    }
    if j < m.len() {
        let kept = if r > m[j].1 {
            r
        } else {
            m[j].1
        };
        out.push((subrange_exec(id, 0, id.len()), kept));
        proof {
            assert(id@.subrange(0, id@.len() as int) =~= id@);
            assert(pair_views(out@) =~= pair_views(m@).subrange(0, j as int) + seq![
                (id@, if r as nat > pair_views(m@)[j as int].1 {
                    r as nat
                } else {
                    pair_views(m@)[j as int].1
                }),
            ]);
        }
        let mut i2: usize = j + 1;
        while i2 < m.len()
            invariant
                j < i2 <= m@.len() || i2 == j + 1,
                i2 <= m@.len() || i2 == j + 1,
                j < m@.len(),
                pair_views(out@) == pair_views(m@).subrange(0, j as int) + seq![
                    (id@, if r as nat > pair_views(m@)[j as int].1 {
                        r as nat
                    } else {
                        pair_views(m@)[j as int].1
                    }),
                ] + pair_views(m@).subrange(j + 1 as int, i2 as int),
            decreases m@.len() - i2,
        {
            out.push((subrange_exec(&m[i2].0, 0, m[i2].0.len()), m[i2].1));
            i2 = i2 + 1;
            proof {
                assert(m@[i2 - 1].0@.subrange(0, m@[i2 - 1].0@.len() as int) =~= m@[i2 - 1].0@);
                assert(pair_views(out@) =~= pair_views(m@).subrange(0, j as int) + seq![
                    (id@, if r as nat > pair_views(m@)[j as int].1 {
                        r as nat
                    } else {
                        pair_views(m@)[j as int].1
                    }),
                ] + pair_views(m@).subrange(j + 1 as int, i2 as int));
            }
        }
        proof {
            assert(pair_views(m@).subrange(j + 1 as int, m@.len() as int) =~= pair_views(
                m@,
            ).skip(j + 1));
        }
        out
    } else {
        out.push((subrange_exec(id, 0, id.len()), r));
        proof {
            assert(id@.subrange(0, id@.len() as int) =~= id@);
            assert(pair_views(m@).subrange(0, j as int) =~= pair_views(m@));
            assert(pair_views(out@) =~= pair_views(m@) + seq![(id@, r as nat)]);
        }
        out
    }
}

/// The per-image table and the anonymous-row total after folding every
/// block: an identified block keeps the largest row count per image id,
/// an anonymous one adds its rows to the running total.
pub open spec fn kitty_agg(blocks: Seq<Seq<char>>, m: Seq<(Seq<char>, nat)>, anon: nat) -> (
    Seq<(Seq<char>, nat)>,
    nat,
)
    decreases blocks.len(),
{
    if blocks.len() == 0 {
        (m, anon)
    } else {
        let info = params_info(params_of(blocks[0]), None, None);
        if info.1 is Some {
            if info.0 is Some {
                kitty_agg(blocks.skip(1), upd_assoc(m, info.0->0, info.1->0), anon)
            } else {
                kitty_agg(blocks.skip(1), m, cap_add(anon, info.1->0))
            }
        } else {
            kitty_agg(blocks.skip(1), m, anon)
        }
    }
}

/// The capped sum of all per-image row counts.
pub open spec fn sum_rows(m: Seq<(Seq<char>, nat)>) -> nat
    decreases m.len(),
{
    if m.len() == 0 {
        0
    } else {
        cap_add(m[0].1, sum_rows(m.skip(1)))
    }
}

/// Rows taken by kitty graphics: per image id the largest advertised row
/// count, anonymous blocks summed separately, everything added up.
/// `None` when no block carried a row count.
pub open spec fn kitty_rows_spec(s: Seq<char>) -> Option<nat> {
    let agg = kitty_agg(kitty_blocks(s, 0), Seq::empty(), 0);
    let total = cap_add(sum_rows(agg.0), agg.1);
    if total > 0 {
        Some(total)
    } else {
        None
    }
}

fn params_of_exec(body: &Vec<char>) -> (r: Vec<char>)
    ensures
        r@ == params_of(body@),
{
    match find_from_exec(body, 0, ';') {
        Some(j) => subrange_exec(body, 0, j),
        None => {
            let r = subrange_exec(body, 0, body.len());
            proof {
                assert(r@ =~= body@);
            }
            r
        },
    }
}

/// Measures the height, in terminal rows, that kitty graphics in the
/// given text will occupy.
pub fn kitty_rows(s: &str) -> (r: Option<usize>)
    ensures
        r is Some <==> kitty_rows_spec(s@) is Some,
        r is Some ==> r->0 == kitty_rows_spec(s@)->0,
{
    let chars = chars_of(s);
    let blocks = kitty_blocks_exec(&chars);
    let ghost all = block_views(blocks@);
    let mut m: Vec<(Vec<char>, usize)> = Vec::new();
    let mut anon: usize = 0;
    let mut i: usize = 0;
    proof {
        assert(all.skip(0) =~= all);
        assert(pair_views(m@) =~= Seq::<(Seq<char>, nat)>::empty());
    }
    while i < blocks.len()
        invariant
            i <= blocks@.len(),
            all == block_views(blocks@),
            kitty_agg(all, Seq::empty(), 0) == kitty_agg(
                all.skip(i as int),
                pair_views(m@),
                anon as nat,
            ),
        decreases blocks@.len() - i,
    {
        proof {
            lemma_skip_one(all, i as int);
        }
        let params = params_of_exec(&blocks[i]);
        let info = params_info_exec(&params);
        match info.1 {
            Some(rws) => {
                match info.0 {
                    Some(idv) => {
                        m = upd_assoc_exec(&m, &idv, rws);
                    },
                    None => {
                        anon = cap_add_usize(anon, rws);
                    },
                }
            },
            None => {},
        }
        i = i + 1;
    }
    proof {
        assert(all.skip(i as int) =~= Seq::<Seq<char>>::empty());
    }
    let mut total: usize = anon;
    let mut k: usize = m.len();
    proof {
        assert(pair_views(m@).skip(k as int) =~= Seq::<(Seq<char>, nat)>::empty());
    }
    while k > 0
        invariant
            k <= m@.len(),
            cap_add(sum_rows(pair_views(m@).skip(k as int)), anon as nat) == total as nat,
        decreases k,
    {
        k = k - 1;
        proof {
            lemma_skip_one(pair_views(m@), k as int);
            lemma_cap_add_assoc(
                pair_views(m@)[k as int].1,
                sum_rows(pair_views(m@).skip(k as int + 1)),
                anon as nat,
            );
        }
        total = cap_add_usize(m[k].1, total);
    }
    proof {
        assert(pair_views(m@).skip(0) =~= pair_views(m@));
    }
    if total > 0 {
        Some(total)
    } else {
        None
    }
}

proof fn lemma_cap_add_assoc(a: nat, b: nat, c: nat)
    ensures
        cap_add(a, cap_add(b, c)) == cap_add(cap_add(a, b), c),
{
}

/// Where a sixel block body starting at `i` ends: the position of the
/// earliest string terminator (`ESC \` or its single-character form) and
/// the position just past it. Sixel payloads may cross line breaks.
pub open spec fn sixel_term(s: Seq<char>, i: int) -> Option<(int, int)>
    decreases s.len() - i,
{
    if i < 0 || i >= s.len() {
        None
    } else if s[i] == esc() && i + 1 < s.len() && s[i + 1] == '\\' {
        Some((i, i + 2))
    } else if s[i] == '\u{9c}' {
        Some((i, i + 1))
    } else {
        sixel_term(s, i + 1)
    }
}

proof fn lemma_sixel_term_bounds(s: Seq<char>, i: int)
    requires
        0 <= i,
    ensures
        sixel_term(s, i) is Some ==> {
            let (be, me) = sixel_term(s, i)->0;
            i <= be && be < me <= s.len()
        },
    decreases s.len() - i,
{
    if 0 <= i < s.len() {
        if s[i] == esc() && i + 1 < s.len() && s[i + 1] == '\\' {
        } else if s[i] == '\u{9c}' {
        } else {
            lemma_sixel_term_bounds(s, i + 1);
        }
    }
}

fn sixel_term_exec(s: &Vec<char>, i: usize) -> (r: Option<(usize, usize)>)
    requires
        i <= s@.len(),
    ensures
        r is Some <==> sixel_term(s@, i as int) is Some,
        r is Some ==> {
            let (be, me) = r->0;
            sixel_term(s@, i as int)->0 == (be as int, me as int) && i <= be && be < me <= s@.len()
        },
    decreases s@.len() - i,
{
    if i >= s.len() {
        None
    } else if s[i] == '\u{1b}' && i + 1 < s.len() && s[i + 1] == '\\' {
        Some((i, i + 2))
    } else if s[i] == '\u{9c}' {
        Some((i, i + 1))
    } else {
        sixel_term_exec(s, i + 1)
    }
}

/// The bodies of all sixel blocks (`ESC P ... terminator`) found scanning
/// left to right from position `i`.
pub open spec fn sixel_blocks(s: Seq<char>, i: int) -> Seq<Seq<char>>
    decreases s.len() - i,
    via sixel_blocks_decreases
{
    if i < 0 || i + 2 > s.len() {
        Seq::empty()
    } else if s[i] == esc() && s[i + 1] == 'P' && sixel_term(s, i + 2) is Some {
        let (be, me) = sixel_term(s, i + 2)->0;
        seq![s.subrange(i + 2, be)] + sixel_blocks(s, me)
    } else {
        sixel_blocks(s, i + 1)
    }
}

#[via_fn]
proof fn sixel_blocks_decreases(s: Seq<char>, i: int) {
    if !(i < 0 || i + 2 > s.len()) {
        if s[i] == esc() && s[i + 1] == 'P' && sixel_term(s, i + 2) is Some {
            lemma_sixel_term_bounds(s, i + 2);
        }
    }
}

fn sixel_blocks_exec(s: &Vec<char>) -> (r: Vec<Vec<char>>)
    ensures
        block_views(r@) == sixel_blocks(s@, 0),
{
    let mut r: Vec<Vec<char>> = Vec::new();
    let mut i: usize = 0;
    while s.len() >= 2 && i <= s.len() - 2
        invariant
            i <= s@.len(),
            sixel_blocks(s@, 0) == block_views(r@) + sixel_blocks(s@, i as int),
        decreases s@.len() - i,
    {
        if s[i] == '\u{1b}' && s[i + 1] == 'P' {
            match sixel_term_exec(s, i + 2) {
                Some((be, me)) => {
                    let body = subrange_exec(s, i + 2, be);
                    proof {
                        assert(block_views(r@.push(body)) =~= block_views(r@) + seq![body@]);
                    }
                    r.push(body);
                    proof {
                        assert(block_views(r@) + sixel_blocks(s@, me as int) =~= sixel_blocks(
                            s@,
                            0,
                        ));
                    }
                    i = me;
                },
                None => {
                    i = i + 1;
                },
            }
        } else {
            i = i + 1;
        }
    }
    proof {
        assert(sixel_blocks(s@, i as int) =~= Seq::<Seq<char>>::empty());
        assert(block_views(r@) =~= sixel_blocks(s@, 0));
    }
    r
}

/// How many characters of `s` equal `c`.
pub open spec fn count_char(s: Seq<char>, c: char) -> nat
    decreases s.len(),
{
    if s.len() == 0 {
        0
    } else {
        (if s[0] == c {
            1nat
        } else {
            0nat
        }) + count_char(s.skip(1), c)
    }
}

pub proof fn lemma_count_char_bound_pub(s: Seq<char>, c: char)
    ensures
        count_char(s, c) <= s.len(),
    decreases s.len(),
{
    if s.len() > 0 {
        lemma_count_char_bound_pub(s.skip(1), c);
    }
}

pub fn count_char_pub(s: &Vec<char>, c: char) -> (r: usize)
    ensures
        r == count_char(s@, c),
{
    proof {
        assert(s@.skip(0) =~= s@);
    }
    let mut r: usize = 0;
    let mut i: usize = 0;
    while i < s.len()
        invariant
            i <= s@.len(),
            r + count_char(s@.skip(i as int), c) == count_char(s@, c),
            r <= i,
        decreases s@.len() - i,
    {
        proof {
            lemma_skip_one(s@, i as int);
        }
        if s[i] == c {
            r = r + 1;
        }
        i = i + 1;
    }
    proof {
        assert(count_char(s@.skip(i as int), c) == 0);
    }
    r
}

/// Raster rows of one sixel block body: the data after the first `q`;
/// one row plus one per row-advance character `-`. `None` when the body
/// carries no `q`.
pub open spec fn sixel_block_rows(body: Seq<char>) -> Option<nat> {
    match find_from(body, 0, 'q') {
        Some(qi) => {
            let data = body.skip(qi + 1);
            if data.len() == 0 {
                Some(0)
            } else {
                Some(cap_add(1, count_char(data, '-')))
            }
        },
        None => None,
    }
}

/// Counts the raster rows of one sixel block body.
pub fn sixel_block_raster_rows(body: &str) -> (r: Option<usize>)
    ensures
        r is Some <==> sixel_block_rows(body@) is Some,
        r is Some ==> r->0 == sixel_block_rows(body@)->0,
{
    let chars = chars_of(body);
    sixel_block_raster_rows_chars(&chars)
}

fn sixel_block_raster_rows_chars(body: &Vec<char>) -> (r: Option<usize>)
    ensures
        r is Some <==> sixel_block_rows(body@) is Some,
        r is Some ==> r->0 == sixel_block_rows(body@)->0,
{
    match find_from_exec(body, 0, 'q') {
        Some(qi) => {
            let bl = body.len();
            let data = subrange_exec(body, qi + 1, bl);
            proof {
                assert(data@ =~= body@.skip(qi as int + 1));
            }
            if data.len() == 0 {
                Some(0)
            } else {
                proof {
                    lemma_count_char_bound_pub(data@, '-');
                }
                let dashes = count_char_pub(&data, '-');
                Some(cap_add_usize(1, dashes))
            }
        },
        None => None,
    }
}

/// The capped sum of raster rows over a run of block bodies, counting a
/// body without a `q` as zero.
pub open spec fn sixel_sum(blocks: Seq<Seq<char>>) -> nat
    decreases blocks.len(),
{
    if blocks.len() == 0 {
        0
    } else {
        cap_add(
            match sixel_block_rows(blocks[0]) {
                Some(r) => r,
                None => 0,
            },
            sixel_sum(blocks.skip(1)),
        )
    }
}

/// Whether any block in the run counts as a sixel image.
pub open spec fn sixel_any(blocks: Seq<Seq<char>>) -> bool
    decreases blocks.len(),
{
    blocks.len() > 0 && (sixel_block_rows(blocks[0]) is Some || sixel_any(blocks.skip(1)))
}

/// Raster rows of all sixel images in the text, summed; `None` when no
/// sixel block is present.
pub open spec fn sixel_rows_spec(s: Seq<char>) -> Option<nat> {
    let bs = sixel_blocks(s, 0);
    if sixel_any(bs) {
        Some(sixel_sum(bs))
    } else {
        None
    }
}

/// Measures the raster-row height of all sixel graphics in the text.
pub fn sixel_rows(s: &str) -> (r: Option<usize>)
    ensures
        r is Some <==> sixel_rows_spec(s@) is Some,
        r is Some ==> r->0 == sixel_rows_spec(s@)->0,
{
    let chars = chars_of(s);
    let blocks = sixel_blocks_exec(&chars);
    let ghost all = block_views(blocks@);
    let mut total: usize = 0;
    let mut found: bool = false;
    let mut k: usize = blocks.len();
    proof {
        assert(all.skip(k as int) =~= Seq::<Seq<char>>::empty());
    }
    while k > 0
        invariant
            k <= blocks@.len(),
            all == block_views(blocks@),
            total as nat == sixel_sum(all.skip(k as int)),
            found == sixel_any(all.skip(k as int)),
        decreases k,
    {
        k = k - 1;
        proof {
            lemma_skip_one(all, k as int);
        }
        match sixel_block_raster_rows_chars(&blocks[k]) {
            Some(rows) => {
                total = cap_add_usize(rows, total);
                found = true;
            },
            None => {
                total = cap_add_usize(0, total);
            },
        }
    }
    proof {
        assert(all.skip(0) =~= all);
    }
    if found {
        Some(total)
    } else {
        None
    }
}

/// The `;`-separated pieces of a control-sequence reply.
pub open spec fn split_semi(s: Seq<char>) -> Seq<Seq<char>>
    decreases s.len(),
    via split_semi_decreases
{
    match find_from(s, 0, ';') {
        Some(j) => seq![s.subrange(0, j)] + split_semi(s.skip(j + 1)),
        None => seq![s],
    }
}

#[via_fn]
proof fn split_semi_decreases(s: Seq<char>) {
    lemma_find_from_bounds(s, 0, ';');
}

fn split_semi_exec(s: &Vec<char>) -> (r: Vec<Vec<char>>)
    ensures
        block_views(r@) == split_semi(s@),
{
    let mut r: Vec<Vec<char>> = Vec::new();
    let mut cur = subrange_exec(s, 0, s.len());
    proof {
        assert(cur@ =~= s@);
    }
    loop
        invariant
            split_semi(s@) == block_views(r@) + split_semi(cur@),
        decreases cur@.len(),
    {
        match find_from_exec(&cur, 0, ';') {
            Some(j) => {
                let piece = subrange_exec(&cur, 0, j);
                let cl = cur.len();
                let rest = subrange_exec(&cur, j + 1, cl);
                proof {
                    lemma_find_from_bounds(cur@, 0, ';');
                    assert(rest@ =~= cur@.skip(j as int + 1));
                    assert(block_views(r@.push(piece)) =~= block_views(r@) + seq![piece@]);
                }
                r.push(piece);
                proof {
                    assert(block_views(r@) + split_semi(rest@) =~= split_semi(s@));
                }
                cur = rest;
            },
            None => {
                proof {
                    assert(block_views(r@.push(cur)) =~= block_views(r@) + seq![cur@]);
                }
                r.push(cur);
                proof {
                    assert(block_views(r@) =~= split_semi(s@));
                }
                return r;
            },
        }
    }
}

/// A well-formed control-sequence reply: the control-sequence introducer,
/// then the expected leading number, then `;`-separated decimal numbers,
/// then `t`.
pub open spec fn csi_reply_ok(s: Seq<char>, lead: Seq<char>) -> bool {
    &&& s.len() >= 3
    &&& s[0] == esc()
    &&& s[1] == '['
    &&& s[s.len() - 1] == 't'
    &&& {
        let parts = split_semi(s.subrange(2, s.len() - 1));
        &&& parts[0] == lead
        &&& forall|k: int|
            1 <= k < parts.len() ==> parse_usize_spec(#[trigger] parts[k]) is Some
    }
}

/// The numbers carried by a well-formed reply.
pub open spec fn csi_reply_numbers(s: Seq<char>) -> Seq<nat> {
    let parts = split_semi(s.subrange(2, s.len() - 1));
    Seq::new((parts.len() - 1) as nat, |k: int| parse_usize_spec(parts[k + 1])->0)
}

/// Parses a terminal size report of the form `ESC [ lead ; n ; m t`,
/// returning the numbers after the expected leading field.
pub fn parse_csi_numbers(s: &str, expected_leading: &str) -> (r: Option<Vec<usize>>)
    ensures
        r is Some <==> csi_reply_ok(s@, expected_leading@),
        r is Some ==> {
            let nums = csi_reply_numbers(s@);
            r->0@.len() == nums.len() && forall|k: int|
                0 <= k < nums.len() ==> (#[trigger] r->0@[k]) as nat == nums[k]
        },
{
    let chars = chars_of(s);
    if chars.len() < 3 || chars[0] != '\u{1b}' || chars[1] != '[' || chars[chars.len() - 1]
        != 't' {
        return None;
    }
    let inner = subrange_exec(&chars, 2, chars.len() - 1);
    let parts = split_semi_exec(&inner);
    let lead = chars_of(expected_leading);
    proof {
        assert(split_semi(inner@).len() > 0);
        assert(block_views(parts@).len() == split_semi(inner@).len());
    }
    if !vec_char_eq(&parts[0], &lead) {
        return None;
    }
    let mut nums: Vec<usize> = Vec::new();
    let mut k: usize = 1;
    while k < parts.len()
        invariant
            1 <= k <= parts@.len(),
            block_views(parts@) == split_semi(inner@),
            inner@ == s@.subrange(2, s@.len() - 1),
            nums@.len() == k - 1,
            forall|j: int|
                1 <= j < k ==> parse_usize_spec(#[trigger] block_views(parts@)[j]) is Some,
            forall|j: int|
                0 <= j < k - 1 ==> (#[trigger] nums@[j]) as nat == parse_usize_spec(
                    block_views(parts@)[j + 1],
                )->0,
        decreases parts@.len() - k,
    {
        let piece = crate::text::string_of(&parts[k]);
        match parse_usize(piece.as_str()) {
            Some(n) => {
                nums.push(n);
            },
            None => {
                return None;
            },
        }
        k = k + 1;
    }
    Some(nums)
}

/// One terminal cell's pixel height derived from a window pixel height
/// and a row count, rounding up.
pub fn derive_cell_height(height_px: usize, rows: usize) -> (r: usize)
    requires
        rows >= 1,
        height_px <= usize::MAX - rows,
    ensures
        r == (height_px + rows - 1) / rows as int,
{
    (height_px + rows - 1) / rows
}


/// The first number of a well-formed size report, when it is positive.
pub open spec fn report_first(s: Seq<char>, lead: Seq<char>) -> Option<nat> {
    if csi_reply_ok(s, lead) && csi_reply_numbers(s).len() >= 2 && csi_reply_numbers(s)[0] > 0 {
        Some(csi_reply_numbers(s)[0])
    } else {
        None
    }
}

/// The first number of an optional reply.
pub open spec fn opt_report_first(o: Option<Seq<char>>, lead: Seq<char>) -> Option<nat> {
    match o {
        Some(s) => report_first(s, lead),
        None => None,
    }
}

/// The cell height derived from the terminal's replies: the cell-size
/// report is preferred; else the window pixel height divided by the text
/// rows, rounding up; `None` when neither pair answers usably.
pub open spec fn cell_height_spec(
    cell_reply: Option<Seq<char>>,
    window_reply: Option<Seq<char>>,
    text_reply: Option<Seq<char>>,
) -> Option<nat> {
    match opt_report_first(cell_reply, "6"@) {
        Some(h) => Some(h),
        None => match (opt_report_first(window_reply, "4"@), opt_report_first(
            text_reply,
            "8"@,
        )) {
            (Some(hpx), Some(rows)) => if hpx + rows <= usize::MAX {
                Some(((hpx + rows - 1) / rows as int) as nat)
            } else {
                None
            },
            _ => None,
        },
    }
}

/// The view of an optional reply string.
pub open spec fn opt_str_view(o: Option<&str>) -> Option<Seq<char>> {
    match o {
        Some(s) => Some(s@),
        None => None,
    }
}

fn report_first_exec(o: Option<&str>, lead: &str) -> (r: Option<usize>)
    ensures
        r is Some <==> opt_report_first(opt_str_view(o), lead@) is Some,
        r is Some ==> r->0 == opt_report_first(opt_str_view(o), lead@)->0,
{
    match o {
        Some(s) => {
            match parse_csi_numbers(s, lead) {
                Some(nums) => {
                    if nums.len() >= 2 && nums[0] > 0 {
                        Some(nums[0])
                    } else {
                        None
                    }
                },
                None => None,
            }
        },
        None => None,
    }
}

/// Decides the cell height from the three size-report replies.
pub fn cell_height_from_replies(
    cell_reply: Option<&str>,
    window_reply: Option<&str>,
    text_reply: Option<&str>,
) -> (r: Option<usize>)
    ensures
        r is Some <==> cell_height_spec(
            opt_str_view(cell_reply),
            opt_str_view(window_reply),
            opt_str_view(text_reply),
        ) is Some,
        r is Some ==> r->0 == cell_height_spec(
            opt_str_view(cell_reply),
            opt_str_view(window_reply),
            opt_str_view(text_reply),
        )->0,
{
    match report_first_exec(cell_reply, "6") {
        Some(h) => Some(h),
        None => {
            let hpx = report_first_exec(window_reply, "4");
            let rows = report_first_exec(text_reply, "8");
            match (hpx, rows) {
                (Some(h), Some(rw)) => {
                    if h <= usize::MAX - rw {
                        Some(derive_cell_height(h, rw))
                    } else {
                        None
                    }
                },
                _ => None,
            }
        },
    }
}

} // verus!
