//! Character-level text utilities: ANSI escape stripping, whitespace
//! handling, substring search and lexicographic ordering, shared by the
//! filter, renderer and dispatch logic.

use vstd::prelude::*;

verus! {

/// Appends one character to a string.
///
/// Relies on std's `String::push`: appends exactly the given character.
#[verifier::external_body]
pub fn push_char(s: &mut String, c: char)
    ensures
        final(s)@ == old(s)@.push(c),
{
    s.push(c);
}

/// Collects the characters of a string slice into a vector.
pub fn chars_of(s: &str) -> (r: Vec<char>)
    ensures
        r@ == s@,
{
    let n: usize = s.unicode_len();
    let mut r: Vec<char> = Vec::new();
    let mut i: usize = 0;
    while i < n
        invariant
            n == s@.len(),
            i <= n,
            r@ == s@.subrange(0, i as int),
        decreases n - i,
    {
        r.push(s.get_char(i));
        i = i + 1;
        proof {
            assert(r@ =~= s@.subrange(0, i as int));
        }
    }
    proof {
        assert(r@ =~= s@);
    }
    r
}

/// Builds a string from a vector of characters.
pub fn string_of(v: &Vec<char>) -> (r: String)
    ensures
        r@ == v@,
{
    let mut r: String = String::new();
    let mut i: usize = 0;
    while i < v.len()
        invariant
            i <= v@.len(),
            r@ == v@.subrange(0, i as int),
        decreases v@.len() - i,
    {
        push_char(&mut r, v[i]);
        i = i + 1;
        proof {
            assert(r@ =~= v@.subrange(0, i as int));
        }
    }
    proof {
        assert(r@ =~= v@);
    }
    r
}

/// Whitespace as the launcher recognises it: the White_Space characters,
/// matching what trimming and token splitting treat as separators.
pub open spec fn is_ws(c: char) -> bool {
    c == ' ' || c == '\t' || c == '\n' || c == '\r' || c == '\u{b}' || c == '\u{c}'
        || c == '\u{85}' || c == '\u{a0}' || c == '\u{1680}' || ('\u{2000}' <= c && c
        <= '\u{200a}') || c == '\u{2028}' || c == '\u{2029}' || c == '\u{202f}' || c
        == '\u{205f}' || c == '\u{3000}'
}

/// Executable test matching `is_ws`.
pub fn is_ws_char(c: char) -> (r: bool)
    ensures
        r == is_ws(c),
{
    c == ' ' || c == '\t' || c == '\n' || c == '\r' || c == '\u{b}' || c == '\u{c}'
        || c == '\u{85}' || c == '\u{a0}' || c == '\u{1680}' || ('\u{2000}' <= c && c
        <= '\u{200a}') || c == '\u{2028}' || c == '\u{2029}' || c == '\u{202f}' || c
        == '\u{205f}' || c == '\u{3000}'
}

/// The input with trailing whitespace removed.
pub open spec fn trim_end_spec(s: Seq<char>) -> Seq<char>
    decreases s.len(),
{
    if s.len() == 0 {
        s
    } else if is_ws(s[s.len() - 1]) {
        trim_end_spec(s.drop_last())
    } else {
        s
    }
}

/// Removes trailing whitespace.
pub fn trim_end_chars(s: &Vec<char>) -> (r: Vec<char>)
    ensures
        r@ == trim_end_spec(s@),
{
    let mut n: usize = s.len();
    proof {
        assert(s@.subrange(0, n as int) =~= s@);
    }
    while n > 0 && is_ws_char(s[n - 1])
        invariant
            n <= s@.len(),
            trim_end_spec(s@) == trim_end_spec(s@.subrange(0, n as int)),
        decreases n,
    {
        proof {
            assert(s@.subrange(0, n as int).drop_last() =~= s@.subrange(0, n as int - 1));
        }
        n = n - 1;
    }
    let mut r: Vec<char> = Vec::new();
    let mut i: usize = 0;
    while i < n
        invariant
            i <= n <= s@.len(),
            r@ == s@.subrange(0, i as int),
        decreases n - i,
    {
        r.push(s[i]);
        i = i + 1;
        proof {
            assert(r@ =~= s@.subrange(0, i as int));
        }
    }
    proof {
        let t = s@.subrange(0, n as int);
        if n == s@.len() {
            assert(t =~= s@);
        }
        assert(trim_end_spec(t) == t);
    }
    r
}

/// Every space replaced by a newline, other characters kept.
pub open spec fn replace_space(s: Seq<char>) -> Seq<char> {
    s.map_values(|c: char| if c == ' ' { '\n' } else { c })
}

/// Replaces every space by a newline.
pub fn replace_space_chars(s: &Vec<char>) -> (r: Vec<char>)
    ensures
        r@ == replace_space(s@),
{
    let mut r: Vec<char> = Vec::new();
    let mut i: usize = 0;
    while i < s.len()
        invariant
            i <= s@.len(),
            r@ == replace_space(s@.subrange(0, i as int)),
        decreases s@.len() - i,
    {
        if s[i] == ' ' {
            r.push('\n');
        } else {
            r.push(s[i]);
        }
        i = i + 1;
        proof {
            assert(r@ =~= replace_space(s@.subrange(0, i as int)));
        }
    }
    proof {
        assert(s@.subrange(0, s@.len() as int) =~= s@);
    }
    r
}

/// `p` is a prefix of `s`.
pub open spec fn starts_with_seq(s: Seq<char>, p: Seq<char>) -> bool {
    p.len() <= s.len() && s.subrange(0, p.len() as int) == p
}

/// Prefix test.
pub fn starts_with_chars(s: &Vec<char>, p: &Vec<char>) -> (r: bool)
    ensures
        r == starts_with_seq(s@, p@),
{
    if p.len() > s.len() {
        return false;
    }
    let mut i: usize = 0;
    while i < p.len()
        invariant
            p@.len() <= s@.len(),
            i <= p@.len(),
            s@.subrange(0, i as int) == p@.subrange(0, i as int),
        decreases p@.len() - i,
    {
        if s[i] != p[i] {
            proof {
                assert(s@.subrange(0, p@.len() as int)[i as int] != p@[i as int]);
            }
            return false;
        }
        i = i + 1;
        proof {
            assert(s@.subrange(0, i as int) =~= p@.subrange(0, i as int));
        }
    }
    proof {
        assert(p@.subrange(0, p@.len() as int) =~= p@);
    }
    true
}

/// `n` occurs in `s` as a contiguous run.
pub open spec fn contains_seq(s: Seq<char>, n: Seq<char>) -> bool {
    exists|k: int|
        0 <= k <= s.len() - n.len() && #[trigger] s.subrange(k, k + n.len() as int) == n
}

/// Substring search.
pub fn contains_chars(s: &Vec<char>, n: &Vec<char>) -> (r: bool)
    ensures
        r == contains_seq(s@, n@),
{
    if n.len() > s.len() {
        return false;
    }
    if n.len() == 0 {
        proof {
            assert(s@.subrange(0, 0 + n@.len() as int) =~= n@);
        }
        return true;
    }
    let mut k: usize = 0;
    while k <= s.len() - n.len()
        invariant
            1 <= n@.len() <= s@.len(),
            s@.len() <= usize::MAX,
            k <= s@.len() - n@.len() + 1,
            forall|j: int|
                0 <= j < k ==> #[trigger] s@.subrange(j, j + n@.len() as int) != n@,
        decreases s@.len() - n@.len() + 1 - k,
    {
        let mut i: usize = 0;
        let mut matched: bool = true;
        while matched && i < n.len()
            invariant
                1 <= n@.len() <= s@.len(),
                s@.len() <= usize::MAX,
                k <= s@.len() - n@.len(),
                i <= n@.len(),
                matched ==> s@.subrange(k as int, k + i as int) == n@.subrange(0, i as int),
                !matched ==> s@.subrange(k as int, k + n@.len() as int) != n@,
            decreases n@.len() - i,
        {
            if s[k + i] != n[i] {
                matched = false;
                proof {
                    assert(s@.subrange(k as int, k + n@.len() as int)[i as int] != n@[i as int]);
                    assert(s@.subrange(k as int, k + n@.len() as int) != n@);
                }
            }
            i = i + 1;
            proof {
                if matched {
                    assert(s@.subrange(k as int, k + i as int) =~= n@.subrange(0, i as int));
                }
            }
        }
        if matched {
            proof {
                assert(n@.subrange(0, n@.len() as int) =~= n@);
                assert(s@.subrange(k as int, k + n@.len() as int) == n@);
            }
            return true;
        }
        k = k + 1;
    }
    false
}

pub proof fn lemma_skip_one<T>(s: Seq<T>, i: int)
    requires
        0 <= i < s.len(),
    ensures
        s.skip(i).skip(1) == s.skip(i + 1),
        s.skip(i)[0] == s[i],
        s.skip(i).len() == s.len() - i,
{
    assert(s.skip(i).skip(1) =~= s.skip(i + 1));
}

/// The leading run of non-whitespace characters.
pub open spec fn take_nonws(s: Seq<char>) -> Seq<char>
    decreases s.len(),
{
    if s.len() == 0 || is_ws(s[0]) {
        Seq::empty()
    } else {
        seq![s[0]] + take_nonws(s.skip(1))
    }
}

/// The first whitespace-delimited token of the input, empty if none.
pub open spec fn first_token(s: Seq<char>) -> Seq<char>
    decreases s.len(),
{
    if s.len() == 0 {
        Seq::empty()
    } else if is_ws(s[0]) {
        first_token(s.skip(1))
    } else {
        take_nonws(s)
    }
}

/// Extracts the first whitespace-delimited token.
pub fn first_token_chars(s: &Vec<char>) -> (r: Vec<char>)
    ensures
        r@ == first_token(s@),
{
    let mut i: usize = 0;
    proof {
        assert(s@.skip(0) =~= s@);
    }
    while i < s.len() && is_ws_char(s[i])
        invariant
            i <= s@.len(),
            first_token(s@) == first_token(s@.skip(i as int)),
        decreases s@.len() - i,
    {
        proof {
            lemma_skip_one(s@, i as int);
        }
        i = i + 1;
    }
    let ghost start = i as int;
    proof {
        if start < s@.len() {
            assert(s@.skip(start)[0] == s@[start]);
        }
        assert(first_token(s@) == take_nonws(s@.skip(start)));
    }
    let mut r: Vec<char> = Vec::new();
    while i < s.len() && !is_ws_char(s[i])
        invariant
            0 <= start <= i <= s@.len(),
            take_nonws(s@.skip(start)) == r@ + take_nonws(s@.skip(i as int)),
        decreases s@.len() - i,
    {
        proof {
            lemma_skip_one(s@, i as int);
            assert(take_nonws(s@.skip(i as int)) == seq![s@[i as int]] + take_nonws(
                s@.skip(i as int + 1),
            ));
        }
        r.push(s[i]);
        i = i + 1;
        proof {
            assert(take_nonws(s@.skip(start)) =~= r@ + take_nonws(s@.skip(i as int)));
        }
    }
    proof {
        assert(take_nonws(s@.skip(i as int)) =~= Seq::<char>::empty());
        assert(r@ =~= take_nonws(s@.skip(start)));
    }
    r
}

/// The escape character that introduces a control sequence.
pub open spec fn esc() -> char {
    '\u{1b}'
}

/// Characters allowed in the parameter part of a colour control sequence.
pub open spec fn is_param(c: char) -> bool {
    ('0' <= c && c <= '9') || c == ';'
}

/// Letters, which terminate a colour control sequence.
pub open spec fn is_alpha(c: char) -> bool {
    ('A' <= c && c <= 'Z') || ('a' <= c && c <= 'z')
}

/// Length of the leading run of parameter characters.
pub open spec fn params_len(s: Seq<char>) -> nat
    decreases s.len(),
{
    if s.len() > 0 && is_param(s[0]) {
        1 + params_len(s.skip(1))
    } else {
        0
    }
}

pub proof fn lemma_params_len_bound(s: Seq<char>)
    ensures
        params_len(s) <= s.len(),
    decreases s.len(),
{
    if s.len() > 0 && is_param(s[0]) {
        lemma_params_len_bound(s.skip(1));
    }
}

/// The input begins with a complete ANSI colour control sequence:
/// escape, `[`, parameter characters, then a letter.
pub open spec fn is_csi_start(s: Seq<char>) -> bool {
    &&& s.len() >= 2
    &&& s[0] == esc()
    &&& s[1] == '['
    &&& 2 + params_len(s.skip(2)) < s.len()
    &&& is_alpha(s[2 + params_len(s.skip(2)) as int])
}

/// The input with every ANSI colour control sequence removed, as the
/// launcher sees labels when matching them.
pub open spec fn strip_ansi(s: Seq<char>) -> Seq<char>
    decreases s.len(),
    via strip_ansi_decreases
{
    if s.len() == 0 {
        Seq::empty()
    } else if is_csi_start(s) {
        strip_ansi(s.skip(3 + params_len(s.skip(2)) as int))
    } else {
        seq![s[0]] + strip_ansi(s.skip(1))
    }
}

#[via_fn]
proof fn strip_ansi_decreases(s: Seq<char>) {
    if s.len() > 0 && is_csi_start(s) {
        lemma_params_len_bound(s.skip(2));
    }
}

/// Removes ANSI colour codes from a string.
pub fn remove_ascii(text: &str) -> (r: String)
    ensures
        r@ == strip_ansi(text@),
{
    let v = chars_of(text);
    let stripped = strip_ansi_chars(&v);
    string_of(&stripped)
}

/// Removes ANSI colour codes from a character vector.
pub fn strip_ansi_chars(s: &Vec<char>) -> (r: Vec<char>)
    ensures
        r@ == strip_ansi(s@),
{
    let mut r: Vec<char> = Vec::new();
    let mut i: usize = 0;
    proof {
        assert(s@.skip(0) =~= s@);
    }
    while i < s.len()
        invariant
            i <= s@.len(),
            strip_ansi(s@) == r@ + strip_ansi(s@.skip(i as int)),
        decreases s@.len() - i,
    {
        let ghost rest = s@.skip(i as int);
        if s[i] == '\u{1b}' && i + 1 < s.len() && s[i + 1] == '[' {
            let mut j: usize = i + 2;
            while j < s.len() && is_param_char(s[j])
                invariant
                    i + 2 <= j <= s@.len(),
                    i + 1 < s@.len(),
                    params_len(s@.skip(i as int + 2)) == (j - i - 2) + params_len(
                        s@.skip(j as int),
                    ),
                decreases s@.len() - j,
            {
                proof {
                    lemma_skip_one(s@, j as int);
                }
                j = j + 1;
            }
            proof {
                lemma_skip_one(s@, i as int);
                lemma_skip_one(s@.skip(i as int), 1);
                assert(s@.skip(i as int).skip(2) =~= s@.skip(i as int + 2));
                assert(rest[1] == s@[i as int + 1]);
                assert(params_len(s@.skip(j as int)) == 0);
                assert(params_len(rest.skip(2)) == j - i - 2);
            }
            if j < s.len() && is_alpha_char(s[j]) {
                proof {
                    assert(rest[2 + params_len(rest.skip(2)) as int] == s@[j as int]);
                    assert(is_csi_start(rest));
                    assert(rest.skip(3 + params_len(rest.skip(2)) as int) =~= s@.skip(
                        j as int + 1,
                    ));
                    assert(strip_ansi(rest) == strip_ansi(s@.skip(j as int + 1)));
                }
                i = j + 1;
            } else {
                proof {
                    if 2 + params_len(rest.skip(2)) < rest.len() {
                        assert(rest[2 + params_len(rest.skip(2)) as int] == s@[j as int]);
                    }
                    assert(!is_csi_start(rest));
                    lemma_skip_one(s@, i as int);
                    assert(strip_ansi(rest) == seq![s@[i as int]] + strip_ansi(
                        s@.skip(i as int + 1),
                    ));
                }
                r.push(s[i]);
                i = i + 1;
                proof {
                    assert(strip_ansi(s@) =~= r@ + strip_ansi(s@.skip(i as int)));
                }
            }
        } else {
            proof {
                lemma_skip_one(s@, i as int);
                if rest.len() >= 2 {
                    assert(rest[1] == s@[i as int + 1]);
                }
                assert(!is_csi_start(rest));
                assert(strip_ansi(rest) == seq![s@[i as int]] + strip_ansi(
                    s@.skip(i as int + 1),
                ));
            }
            r.push(s[i]);
            i = i + 1;
            proof {
                assert(strip_ansi(s@) =~= r@ + strip_ansi(s@.skip(i as int)));
            }
        }
    }
    proof {
        assert(strip_ansi(s@.skip(i as int)) =~= Seq::<char>::empty());
        assert(r@ =~= strip_ansi(s@));
    }
    r
}

/// Executable test matching `is_param`.
pub fn is_param_char(c: char) -> (r: bool)
    ensures
        r == is_param(c),
{
    ('0' <= c && c <= '9') || c == ';'
}

/// Executable test matching `is_alpha`.
pub fn is_alpha_char(c: char) -> (r: bool)
    ensures
        r == is_alpha(c),
{
    ('A' <= c && c <= 'Z') || ('a' <= c && c <= 'z')
}

/// The views of a sequence of strings.
pub open spec fn views_of(s: Seq<String>) -> Seq<Seq<char>> {
    Seq::new(s.len(), |i: int| s[i]@)
}

/// The view sequence is as long as the string sequence.
pub broadcast proof fn lemma_views_of_len(s: Seq<String>)
    ensures
        (#[trigger] views_of(s)).len() == s.len(),
{
}

/// Each element of the view sequence is the view of the string there.
pub broadcast proof fn lemma_views_of_index(s: Seq<String>, i: int)
    requires
        0 <= i < s.len(),
    ensures
        #![trigger views_of(s), s[i]]
        views_of(s)[i] == s[i]@,
{
}

/// The views of a sequence of character vectors.
pub open spec fn block_views(s: Seq<Vec<char>>) -> Seq<Seq<char>> {
    Seq::new(s.len(), |i: int| s[i]@)
}

/// The view sequence is as long as the vector sequence.
pub broadcast proof fn lemma_block_views_len(s: Seq<Vec<char>>)
    ensures
        (#[trigger] block_views(s)).len() == s.len(),
{
}

/// Each element of the view sequence is the view of the vector there.
pub broadcast proof fn lemma_block_views_index(s: Seq<Vec<char>>, i: int)
    requires
        0 <= i < s.len(),
    ensures
        #![trigger block_views(s), s[i]]
        block_views(s)[i] == s[i]@,
{
}

/// The views of a sequence of key/count pairs.
pub open spec fn pair_views(s: Seq<(Vec<char>, usize)>) -> Seq<(Seq<char>, nat)> {
    Seq::new(s.len(), |i: int| (s[i].0@, s[i].1 as nat))
}

/// The view sequence is as long as the pair sequence.
pub broadcast proof fn lemma_pair_views_len(s: Seq<(Vec<char>, usize)>)
    ensures
        (#[trigger] pair_views(s)).len() == s.len(),
{
}

/// Each element of the view sequence is the view of the pair there.
pub broadcast proof fn lemma_pair_views_index(s: Seq<(Vec<char>, usize)>, i: int)
    requires
        0 <= i < s.len(),
    ensures
        #![trigger pair_views(s), s[i]]
        pair_views(s)[i] == (s[i].0@, s[i].1 as nat),
{
}


/// A sequence contains itself.
pub proof fn lemma_contains_self(s: Seq<char>)
    ensures
        contains_seq(s, s),
{
    assert(s.subrange(0, 0 + s.len() as int) =~= s);
}

/// A prefix occurs as a substring.
pub proof fn lemma_prefix_contains(s: Seq<char>, p: Seq<char>)
    requires
        starts_with_seq(s, p),
    ensures
        contains_seq(s, p),
{
    assert(s.subrange(0, 0 + p.len() as int) == p);
}

/// Substring containment is transitive.
pub proof fn lemma_contains_trans(s: Seq<char>, b: Seq<char>, a: Seq<char>)
    requires
        contains_seq(s, b),
        contains_seq(b, a),
    ensures
        contains_seq(s, a),
{
    let k1 = choose|k: int|
        0 <= k <= s.len() - b.len() && #[trigger] s.subrange(k, k + b.len() as int) == b;
    let k2 = choose|k: int|
        0 <= k <= b.len() - a.len() && #[trigger] b.subrange(k, k + a.len() as int) == a;
    assert(s.subrange(k1 + k2, k1 + k2 + a.len() as int) =~= a) by {
        assert forall|j: int| 0 <= j < a.len() implies s[k1 + k2 + j] == a[j] by {
            assert(b[k2 + j] == b.subrange(k2, k2 + a.len() as int)[j]);
            assert(s[k1 + k2 + j] == s.subrange(k1, k1 + b.len() as int)[k2 + j]);
        }
    }
}

/// Trimming yields a prefix of the input.
pub proof fn lemma_trim_end_prefix(s: Seq<char>)
    ensures
        starts_with_seq(s, trim_end_spec(s)),
    decreases s.len(),
{
    if s.len() > 0 && is_ws(s[s.len() - 1]) {
        lemma_trim_end_prefix(s.drop_last());
        let p = trim_end_spec(s.drop_last());
        assert(s.subrange(0, p.len() as int) =~= s.drop_last().subrange(0, p.len() as int));
    } else {
        assert(s.subrange(0, s.len() as int) =~= s);
    }
}

/// A sequence without whitespace trims to itself.
pub proof fn lemma_trim_ws_free(s: Seq<char>)
    requires
        forall|i: int| 0 <= i < s.len() ==> !is_ws(#[trigger] s[i]),
    ensures
        trim_end_spec(s) == s,
{
    if s.len() > 0 {
        assert(!is_ws(s[s.len() - 1]));
    }
}

/// Every character of the leading token is non-whitespace.
pub proof fn lemma_take_nonws_ws_free(s: Seq<char>)
    ensures
        forall|i: int| 0 <= i < take_nonws(s).len() ==> !is_ws(#[trigger] take_nonws(s)[i]),
    decreases s.len(),
{
    if s.len() > 0 && !is_ws(s[0]) {
        lemma_take_nonws_ws_free(s.skip(1));
        assert forall|i: int| 0 <= i < take_nonws(s).len() implies !is_ws(
            #[trigger] take_nonws(s)[i],
        ) by {
            if i > 0 {
                assert(take_nonws(s)[i] == take_nonws(s.skip(1))[i - 1]);
            }
        }
    }
}

/// Every character of the first token is non-whitespace.
pub proof fn lemma_first_token_ws_free(s: Seq<char>)
    ensures
        forall|i: int|
            0 <= i < first_token(s).len() ==> !is_ws(#[trigger] first_token(s)[i]),
    decreases s.len(),
{
    if s.len() == 0 {
    } else if is_ws(s[0]) {
        lemma_first_token_ws_free(s.skip(1));
        assert(first_token(s) == first_token(s.skip(1)));
        assert forall|i: int| 0 <= i < first_token(s).len() implies !is_ws(
            #[trigger] first_token(s)[i],
        ) by {
            assert(first_token(s)[i] == first_token(s.skip(1))[i]);
        }
    } else {
        lemma_take_nonws_ws_free(s);
    }
}

/// A token followed by a space trims back to the token.
pub proof fn lemma_trim_token_space(t: Seq<char>)
    requires
        forall|i: int| 0 <= i < t.len() ==> !is_ws(#[trigger] t[i]),
    ensures
        trim_end_spec(t + seq![' ']) == t,
{
    let u = t + seq![' '];
    assert(is_ws(u[u.len() - 1]));
    assert(u.drop_last() =~= t);
    lemma_trim_ws_free(t);
}

/// Appending a character can only extend the leading token.
pub proof fn lemma_take_nonws_push(s: Seq<char>, x: char)
    ensures
        starts_with_seq(take_nonws(s.push(x)), take_nonws(s)),
    decreases s.len(),
{
    if s.len() == 0 {
        assert(take_nonws(s.push(x)).subrange(0, 0) =~= take_nonws(s));
    } else if is_ws(s[0]) {
        assert(s.push(x)[0] == s[0]);
        assert(take_nonws(s.push(x)).subrange(0, 0) =~= take_nonws(s));
    } else {
        assert(s.push(x)[0] == s[0]);
        assert(s.push(x).skip(1) =~= s.skip(1).push(x));
        lemma_take_nonws_push(s.skip(1), x);
        let a = take_nonws(s.skip(1).push(x));
        let b = take_nonws(s.skip(1));
        assert(take_nonws(s.push(x)) == seq![s[0]] + a);
        assert(take_nonws(s) == seq![s[0]] + b);
        assert((seq![s[0]] + a).subrange(0, (seq![s[0]] + b).len() as int) =~= seq![s[0]]
            + a.subrange(0, b.len() as int));
    }
}

/// Appending a character can only extend the first token.
pub proof fn lemma_first_token_push(s: Seq<char>, x: char)
    ensures
        starts_with_seq(first_token(s.push(x)), first_token(s)),
    decreases s.len(),
{
    if s.len() == 0 {
        assert(first_token(s.push(x)).subrange(0, 0) =~= first_token(s));
    } else if is_ws(s[0]) {
        assert(s.push(x)[0] == s[0]);
        assert(s.push(x).skip(1) =~= s.skip(1).push(x));
        lemma_first_token_push(s.skip(1), x);
    } else {
        assert(s.push(x)[0] == s[0]);
        lemma_take_nonws_push(s, x);
    }
}

/// A sequence without whitespace is its own first token.
pub proof fn lemma_first_token_ws_free_self(s: Seq<char>)
    requires
        forall|i: int| 0 <= i < s.len() ==> !is_ws(#[trigger] s[i]),
    ensures
        first_token(s) == s,
    decreases s.len(),
{
    if s.len() > 0 {
        assert(!is_ws(s[0]));
        assert(take_nonws_all(s)) by {
            lemma_take_nonws_all(s);
        }
    }
}

spec fn take_nonws_all(s: Seq<char>) -> bool {
    take_nonws(s) == s
}

proof fn lemma_take_nonws_all(s: Seq<char>)
    requires
        forall|i: int| 0 <= i < s.len() ==> !is_ws(#[trigger] s[i]),
    ensures
        take_nonws_all(s),
    decreases s.len(),
{
    if s.len() == 0 {
        assert(take_nonws(s) =~= s);
    } else {
        assert(!is_ws(s[0]));
        assert forall|i: int| 0 <= i < s.skip(1).len() implies !is_ws(
            #[trigger] s.skip(1)[i],
        ) by {
            assert(s.skip(1)[i] == s[i + 1]);
        }
        lemma_take_nonws_all(s.skip(1));
        assert(take_nonws(s) =~= s);
    }
}

} // verus!
