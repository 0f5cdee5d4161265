//! Dispatch: resolving the typed line or the selected row to a module's
//! shell command, and the scanners behind separator/footer expansion.

use crate::pager::UiState;
use crate::settings::Module;
use crate::text::{
    chars_of, first_token, first_token_chars, is_ws, is_ws_char, starts_with_chars,
    starts_with_seq, string_of, strip_ansi, strip_ansi_chars, trim_end_chars, trim_end_spec,
    views_of,
};
use vstd::prelude::*;
use vstd::string::StringSliceAdditionalSpecFns;

verus! {

broadcast use crate::text::lemma_views_of_len, crate::text::lemma_views_of_index;

/// The uppercase hexadecimal digit for a value below sixteen.
pub open spec fn hex_digit(d: nat) -> char {
    if d == 0 {
        '0'
    } else if d == 1 {
        '1'
    } else if d == 2 {
        '2'
    } else if d == 3 {
        '3'
    } else if d == 4 {
        '4'
    } else if d == 5 {
        '5'
    } else if d == 6 {
        '6'
    } else if d == 7 {
        '7'
    } else if d == 8 {
        '8'
    } else if d == 9 {
        '9'
    } else if d == 10 {
        'A'
    } else if d == 11 {
        'B'
    } else if d == 12 {
        'C'
    } else if d == 13 {
        'D'
    } else if d == 14 {
        'E'
    } else {
        'F'
    }
}

/// Bytes that URL encoding passes through unchanged.
pub open spec fn is_url_safe(b: u8) -> bool {
    (48 <= b && b <= 57) || (65 <= b && b <= 90) || (97 <= b && b <= 122) || b == 45 || b == 46
        || b == 95 || b == 126
}

/// Percent-encoding of a byte string: safe bytes kept, every other byte
/// written as `%` and two uppercase hexadecimal digits.
pub open spec fn url_encode_bytes(bs: Seq<u8>) -> Seq<char>
    decreases bs.len(),
{
    if bs.len() == 0 {
        Seq::empty()
    } else {
        (if is_url_safe(bs[0]) {
            seq![bs[0] as char]
        } else {
            seq!['%', hex_digit((bs[0] / 16) as nat), hex_digit((bs[0] % 16) as nat)]
        }) + url_encode_bytes(bs.skip(1))
    }
}

/// Percent-encodes an argument before substitution.
///
/// Relies on `urlencoding::encode`: percent-encodes every byte of the
/// UTF-8 input except ASCII alphanumerics and `-`, `_`, `.`, `~`, writing
/// uppercase hexadecimal.
#[verifier::external_body]
pub fn url_encode(s: &str) -> (r: String)
    ensures
        r@ == url_encode_bytes(s.spec_bytes()),
{
    urlencoding::encode(s).into_owned()
}

/// The command template with every `{}` placeholder replaced by the
/// argument, scanning left to right.
pub open spec fn replace_braces(s: Seq<char>, arg: Seq<char>) -> Seq<char>
    decreases s.len(),
{
    if s.len() < 2 {
        s
    } else if s[0] == '{' && s[1] == '}' {
        arg + replace_braces(s.skip(2), arg)
    } else {
        seq![s[0]] + replace_braces(s.skip(1), arg)
    }
}

/// Substitutes the argument for every `{}` placeholder of the template.
pub fn replace_placeholder(cmd: &str, arg: &str) -> (r: String)
    ensures
        r@ == replace_braces(cmd@, arg@),
{
    let s = chars_of(cmd);
    let a = chars_of(arg);
    let mut out: Vec<char> = Vec::new();
    let mut i: usize = 0;
    proof {
        assert(s@.skip(0) =~= s@);
    }
    while i < s.len()
        invariant
            i <= s@.len(),
            s@ == cmd@,
            a@ == arg@,
            replace_braces(s@, arg@) == out@ + replace_braces(s@.skip(i as int), arg@),
        decreases s@.len() - i,
    {
        let ghost rest = s@.skip(i as int);
        proof {
            crate::text::lemma_skip_one(s@, i as int);
            if rest.len() >= 2 {
                assert(rest[1] == s@[i as int + 1]);
                assert(rest.skip(2) =~= s@.skip(i as int + 2));
            }
        }
        if i + 1 < s.len() && s[i] == '{' && s[i + 1] == '}' {
            proof {
                assert(replace_braces(rest, arg@) == arg@ + replace_braces(
                    s@.skip(i as int + 2),
                    arg@,
                ));
                assert(a@.skip(0) =~= a@);
                assert(out@ + replace_braces(rest, arg@) =~= out@ + a@.skip(0)
                    + replace_braces(s@.skip(i as int + 2), arg@));
            }
            let mut k: usize = 0;
            while k < a.len()
                invariant
                    k <= a@.len(),
                    replace_braces(s@, arg@) == out@ + a@.skip(k as int) + replace_braces(
                        s@.skip(i as int + 2),
                        arg@,
                    ),
                decreases a@.len() - k,
            {
                proof {
                    crate::text::lemma_skip_one(a@, k as int);
                }
                out.push(a[k]);
                k = k + 1;
                proof {
                    assert(out@ + a@.skip(k as int) =~= out@.drop_last() + a@.skip(
                        k as int - 1,
                    ));
                }
            }
            proof {
                assert(a@.skip(k as int) =~= Seq::<char>::empty());
                assert(out@ + a@.skip(k as int) + replace_braces(s@.skip(i as int + 2), arg@)
                    =~= out@ + replace_braces(s@.skip(i as int + 2), arg@));
            }
            i = i + 2;
        } else {
            proof {
                if rest.len() == 1 {
                    assert(rest =~= seq![s@[i as int]]);
                    assert(s@.skip(i as int + 1) =~= Seq::<char>::empty());
                    assert(replace_braces(rest, arg@) =~= seq![s@[i as int]] + replace_braces(
                        s@.skip(i as int + 1),
                        arg@,
                    ));
                } else {
                    assert(replace_braces(rest, arg@) == seq![s@[i as int]] + replace_braces(
                        s@.skip(i as int + 1),
                        arg@,
                    ));
                }
            }
            out.push(s[i]);
            i = i + 1;
            proof {
                assert(replace_braces(s@, arg@) =~= out@ + replace_braces(
                    s@.skip(i as int),
                    arg@,
                ));
            }
        }
    }
    proof {
        assert(s@.skip(i as int) =~= Seq::<char>::empty());
        assert(out@ =~= replace_braces(s@, arg@));
    }
    string_of(&out)
}

/// The index of the first module whose colour-stripped prefix equals the
/// token, if any: first in configuration order wins.
pub open spec fn find_module_spec(modules: Seq<Module>, prfx: Seq<char>) -> Option<int>
    decreases modules.len(),
{
    if modules.len() == 0 {
        None
    } else if strip_ansi(modules[0].prefix@) == prfx {
        Some(0)
    } else {
        match find_module_spec(modules.skip(1), prfx) {
            Some(k) => Some(k + 1),
            None => None,
        }
    }
}

/// Finds the first configured module triggered by the given token.
pub fn find_module(modules: &Vec<Module>, prfx: &Vec<char>) -> (r: Option<usize>)
    ensures
        r is Some <==> find_module_spec(modules@, prfx@) is Some,
        r is Some ==> r->0 == find_module_spec(modules@, prfx@)->0 && r->0 < modules@.len(),
{
    let mut i: usize = 0;
    proof {
        assert(modules@.skip(0) =~= modules@);
    }
    while i < modules.len()
        invariant
            i <= modules@.len(),
            find_module_spec(modules@, prfx@) == shift_opt(
                find_module_spec(modules@.skip(i as int), prfx@),
                i as int,
            ),
        decreases modules@.len() - i,
    {
        proof {
            crate::text::lemma_skip_one(modules@, i as int);
        }
        let pc = chars_of(modules[i].prefix.as_str());
        let stripped = strip_ansi_chars(&pc);
        if vec_eq_chars(&stripped, prfx) {
            return Some(i);
        }
        i = i + 1;
    }
    None
}

/// An optional index shifted by an offset.
pub open spec fn shift_opt(o: Option<int>, d: int) -> Option<int> {
    match o {
        Some(k) => Some(k + d),
        None => None,
    }
}

/// The input with every leading repetition of `p` removed.
pub open spec fn trim_start_matches_spec(s: Seq<char>, p: Seq<char>) -> Seq<char>
    decreases s.len(),
{
    if p.len() > 0 && starts_with_seq(s, p) {
        trim_start_matches_spec(s.skip(p.len() as int), p)
    } else {
        s
    }
}

/// The input with leading whitespace removed.
pub open spec fn trim_start_ws(s: Seq<char>) -> Seq<char>
    decreases s.len(),
{
    if s.len() > 0 && is_ws(s[0]) {
        trim_start_ws(s.skip(1))
    } else {
        s
    }
}

fn trim_start_matches_exec(s: &Vec<char>, p: &Vec<char>) -> (r: Vec<char>)
    ensures
        r@ == trim_start_matches_spec(s@, p@),
    decreases s@.len(),
{
    if p.len() > 0 && starts_with_chars(s, p) {
        let rest = vec_skip(s, p.len());
        trim_start_matches_exec(&rest, p)
    } else {
        vec_skip(s, 0)
    }
}

fn vec_skip(s: &Vec<char>, n: usize) -> (r: Vec<char>)
    requires
        n <= s@.len(),
    ensures
        r@ == s@.skip(n as int),
{
    let mut r: Vec<char> = Vec::new();
    let mut i: usize = n;
    while i < s.len()
        invariant
            n <= i <= s@.len(),
            r@ == s@.subrange(n as int, i as int),
        decreases s@.len() - i,
    {
        r.push(s[i]);
        i = i + 1;
        proof {
            assert(r@ =~= s@.subrange(n as int, i as int));
        }
    }
    proof {
        assert(r@ =~= s@.skip(n as int));
    }
    r
}

fn trim_start_ws_exec(s: &Vec<char>) -> (r: Vec<char>)
    ensures
        r@ == trim_start_ws(s@),
{
    let mut i: usize = 0;
    proof {
        assert(s@.skip(0) =~= s@);
    }
    while i < s.len() && is_ws_char(s[i])
        invariant
            i <= s@.len(),
            trim_start_ws(s@) == trim_start_ws(s@.skip(i as int)),
        decreases s@.len() - i,
    {
        proof {
            crate::text::lemma_skip_one(s@, i as int);
        }
        i = i + 1;
    }
    let r = vec_skip(s, i);
    proof {
        if i < s@.len() {
            assert(s@.skip(i as int)[0] == s@[i as int]);
        }
        assert(trim_start_ws(s@.skip(i as int)) == s@.skip(i as int));
    }
    r
}

/// What the read loop does with an accepted line.
pub enum PromptAction {
    /// A matched module's command, fully substituted.
    Run { cmd: String, detach: bool },
    /// No module matched a non-empty line: fall back to the default module.
    UseDefaultModule,
    /// The line was empty: fall back to the empty module.
    UseEmptyModule,
    /// The cheat-sheet keyword was typed.
    ShowCheatSheet,
}

/// The argument handed to a matched module: the line with the prefix
/// stripped and trimmed, URL-encoded where the module asks for it.
pub open spec fn module_argument(m: Module, prompt: &str) -> Seq<char> {
    let stripped = trim_start_ws(
        trim_start_matches_spec(prompt@, first_token(prompt@)),
    );
    if m.url_encode == Some(true) {
        url_encode_bytes(encode_chars(stripped))
    } else {
        stripped
    }
}

/// The UTF-8 bytes of a character sequence.
pub open spec fn encode_chars(s: Seq<char>) -> Seq<u8> {
    vstd::utf8::encode_utf8(s)
}

/// Resolves an accepted line against the module table, mirroring the
/// launcher's dispatch rules: a module taking an argument runs with the
/// remainder of the line; a module typed exactly runs bare; anything else
/// falls back to the default, empty or cheat-sheet paths.
pub fn resolve_prompt(modules: &Vec<Module>, prompt: &str, cheatsheet_entry: &str) -> (r:
    PromptAction)
    ensures
        (match find_module_spec(modules@, first_token(prompt@)) {
            Some(k) => {
                let m = modules@[k];
                if m.with_argument == Some(true) {
                    r is Run && r->Run_cmd@ == replace_braces(m.cmd@, module_argument(m, prompt))
                        && r->Run_detach == (m.unbind_proc == Some(true))
                } else if strip_ansi(m.prefix@) == trim_end_spec(prompt@) {
                    r is Run && r->Run_cmd@ == m.cmd@ && r->Run_detach == (m.unbind_proc == Some(
                        true,
                    ))
                } else {
                    r is UseDefaultModule
                }
            },
            None => {
                if prompt@.len() == 0 {
                    r is UseEmptyModule
                } else if trim_end_spec(prompt@) == cheatsheet_entry@ {
                    r is ShowCheatSheet
                } else {
                    r is UseDefaultModule
                }
            },
        }),
{
    let prompt_chars = chars_of(prompt);
    let prfx = first_token_chars(&prompt_chars);
    match find_module(modules, &prfx) {
        Some(k) => {
            let m = &modules[k];
            if matches_some_true(&m.with_argument) {
                let after = trim_start_matches_exec(&prompt_chars, &prfx);
                let arg_chars = trim_start_ws_exec(&after);
                let arg_plain = string_of(&arg_chars);
                let arg = if matches_some_true(&m.url_encode) {
                    url_encode(arg_plain.as_str())
                } else {
                    arg_plain
                };
                let cmd = replace_placeholder(m.cmd.as_str(), arg.as_str());
                PromptAction::Run { cmd, detach: matches_some_true(&m.unbind_proc) }
            } else {
                let pc = chars_of(m.prefix.as_str());
                let stripped = strip_ansi_chars(&pc);
                let trimmed = trim_end_chars(&prompt_chars);
                if vec_eq_chars(&stripped, &trimmed) {
                    PromptAction::Run {
                        cmd: m.cmd.clone(),
                        detach: matches_some_true(&m.unbind_proc),
                    }
                } else {
                    PromptAction::UseDefaultModule
                }
            }
        },
        None => {
            if prompt_chars.len() == 0 {
                PromptAction::UseEmptyModule
            } else {
                let trimmed = trim_end_chars(&prompt_chars);
                let entry = chars_of(cheatsheet_entry);
                if vec_eq_chars(&trimmed, &entry) {
                    PromptAction::ShowCheatSheet
                } else {
                    PromptAction::UseDefaultModule
                }
            }
        },
    }
}

fn matches_some_true(o: &Option<bool>) -> (r: bool)
    ensures
        r == (*o == Some(true)),
{
    match o {
        Some(b) => *b,
        None => false,
    }
}

/// What pressing the accept key does, given the current selection.
pub enum AcceptAction {
    /// Nothing selected: the line is accepted as typed.
    AcceptLine,
    /// The selection carried no usable prefix token: the key is ignored.
    NoCandidate,
    /// Run the selected no-argument module and clear the line (loop mode).
    RunAndClear { cmd: String, detach: bool },
    /// Run the selected no-argument module and leave the read loop.
    RunAndInterrupt { cmd: String, detach: bool },
    /// Insert the candidate prefix into the line.
    Complete,
    /// Show the candidate as an inline hint completion.
    CompleteHint,
}

/// Key handler: accept the line, or run/complete the selected row.
pub struct ListItemEnter;

/// Key handler: run or complete the selected row without accepting.
pub struct ListItemSelect;

/// Key handler: complete with the current candidate.
pub struct ListItemTab;

/// Key handler: arm the two-key chord window.
pub struct CTRLX;

/// Key handler: hand the line to an external editor.
pub struct ExternalEditor;

impl ListItemEnter {
    /// Decides what the accept key does. With a row selected and a
    /// no-argument module resolved, its command runs — clearing the line
    /// in loop mode, leaving the loop otherwise; a module that takes an
    /// argument is completed into the line instead.
    pub fn handle(
        &self,
        modules: &Vec<Module>,
        st: &mut UiState,
        completion_candidate: &str,
        loop_mode: bool,
        pos_at_line_end: bool,
    ) -> (r: AcceptAction)
        requires
            old(st).selection_index > 0 && first_token(completion_candidate@).len() > 0
                ==> find_module_spec(modules@, first_token(completion_candidate@)) is Some,
        ensures
            old(st).selection_index == 0 ==> r is AcceptLine && *final(st) == *old(st),
            old(st).selection_index > 0 && first_token(completion_candidate@).len() == 0 ==> r
                is NoCandidate && *final(st) == *old(st),
            old(st).selection_index > 0 && first_token(completion_candidate@).len() > 0 ==> {
                let m = modules@[find_module_spec(modules@, first_token(completion_candidate@))->0];
                if m.with_argument == Some(true) {
                    (if pos_at_line_end {
                        r is Complete
                    } else {
                        r is CompleteHint
                    }) && *final(st) == *old(st)
                } else {
                    {
                        let cmd_arg = if m.url_encode == Some(true) {
                            url_encode_bytes(encode_chars(Seq::empty()))
                        } else {
                            Seq::<char>::empty()
                        };
                        &&& (if loop_mode {
                            r is RunAndClear && final(st).selection_index == 0 && same_but_sel(
                                *old(st),
                                *final(st),
                            )
                        } else {
                            r is RunAndInterrupt && *final(st) == *old(st)
                        })
                        &&& accept_cmd(r)@ == replace_braces(m.cmd@, cmd_arg)
                        &&& accept_detach(r) == (m.unbind_proc == Some(true))
                    }
                }
            },
    {
        if st.selection_index == 0 {
            return AcceptAction::AcceptLine;
        }
        let cand_chars = chars_of(completion_candidate);
        let tok = first_token_chars(&cand_chars);
        if tok.len() == 0 {
            return AcceptAction::NoCandidate;
        }
        let k = match find_module(modules, &tok) {
            Some(k) => k,
            None => {
                proof {
                    assert(false);
                }
                0
            },
        };
        let m = &modules[k];
        if !matches_some_true(&m.with_argument) {
            let tok_str = string_of(&tok);
            let action = run_designated_module(modules, "", tok_str.as_str());
            proof {
                reveal_strlit("");
                assert(""@ =~= Seq::<char>::empty());
            }
            match action {
                DesignatedAction::Run { cmd, detach } => {
                    if loop_mode {
                        st.selection_index = 0;
                        AcceptAction::RunAndClear { cmd, detach }
                    } else {
                        AcceptAction::RunAndInterrupt { cmd, detach }
                    }
                },
                DesignatedAction::PrintPrompt => {
                    proof {
                        assert(false);
                    }
                    AcceptAction::NoCandidate
                },
            }
        } else if pos_at_line_end {
            AcceptAction::Complete
        } else {
            AcceptAction::CompleteHint
        }
    }
}

/// Everything of the pager state except the selection index is unchanged.
pub open spec fn same_but_sel(a: UiState, b: UiState) -> bool {
    &&& a.hint_benchmark == b.hint_benchmark
    &&& a.selection_span == b.selection_span
    &&& a.hint_span == b.hint_span
    &&& a.filtered_hint_count == b.filtered_hint_count
    &&& a.suggestion_lines == b.suggestion_lines
}

/// The command carried by a run action.
pub open spec fn accept_cmd(r: AcceptAction) -> String {
    match r {
        AcceptAction::RunAndClear { cmd, .. } => cmd,
        AcceptAction::RunAndInterrupt { cmd, .. } => cmd,
        _ => arbitrary(),
    }
}

/// The detach flag carried by a run action.
pub open spec fn accept_detach(r: AcceptAction) -> bool {
    match r {
        AcceptAction::RunAndClear { detach, .. } => detach,
        AcceptAction::RunAndInterrupt { detach, .. } => detach,
        _ => arbitrary(),
    }
}

impl ListItemSelect {
    /// Like the accept key, but with nothing selected it completes, and a
    /// module taking an argument always completes into the line.
    pub fn handle(
        &self,
        modules: &Vec<Module>,
        st: &mut UiState,
        completion_candidate: &str,
        loop_mode: bool,
    ) -> (r: AcceptAction)
        requires
            old(st).selection_index > 0 && first_token(completion_candidate@).len() > 0
                ==> find_module_spec(modules@, first_token(completion_candidate@)) is Some,
        ensures
            old(st).selection_index == 0 ==> r is Complete && *final(st) == *old(st),
            old(st).selection_index > 0 && first_token(completion_candidate@).len() == 0 ==> r
                is NoCandidate && *final(st) == *old(st),
            old(st).selection_index > 0 && first_token(completion_candidate@).len() > 0 ==> {
                let m = modules@[find_module_spec(modules@, first_token(completion_candidate@))->0];
                if m.with_argument == Some(true) {
                    r is Complete && *final(st) == *old(st)
                } else {
                    {
                        let cmd_arg = if m.url_encode == Some(true) {
                            url_encode_bytes(encode_chars(Seq::empty()))
                        } else {
                            Seq::<char>::empty()
                        };
                        &&& (if loop_mode {
                            r is RunAndClear && final(st).selection_index == 0 && same_but_sel(
                                *old(st),
                                *final(st),
                            )
                        } else {
                            r is RunAndInterrupt && *final(st) == *old(st)
                        })
                        &&& accept_cmd(r)@ == replace_braces(m.cmd@, cmd_arg)
                        &&& accept_detach(r) == (m.unbind_proc == Some(true))
                    }
                }
            },
    {
        if st.selection_index == 0 {
            return AcceptAction::Complete;
        }
        let cand_chars = chars_of(completion_candidate);
        let tok = first_token_chars(&cand_chars);
        if tok.len() == 0 {
            return AcceptAction::NoCandidate;
        }
        let k = match find_module(modules, &tok) {
            Some(k) => k,
            None => {
                proof {
                    assert(false);
                }
                0
            },
        };
        let m = &modules[k];
        if !matches_some_true(&m.with_argument) {
            let tok_str = string_of(&tok);
            let action = run_designated_module(modules, "", tok_str.as_str());
            proof {
                reveal_strlit("");
                assert(""@ =~= Seq::<char>::empty());
            }
            match action {
                DesignatedAction::Run { cmd, detach } => {
                    if loop_mode {
                        st.selection_index = 0;
                        AcceptAction::RunAndClear { cmd, detach }
                    } else {
                        AcceptAction::RunAndInterrupt { cmd, detach }
                    }
                },
                DesignatedAction::PrintPrompt => {
                    proof {
                        assert(false);
                    }
                    AcceptAction::NoCandidate
                },
            }
        } else {
            AcceptAction::Complete
        }
    }
}

impl ListItemTab {
    /// Completes with the candidate: inserted at the end of the line, or
    /// shown as an inline hint when the caret is mid-line.
    pub fn handle(&self, pos_at_line_end: bool) -> (r: AcceptAction)
        ensures
            pos_at_line_end ==> r is Complete,
            !pos_at_line_end ==> r is CompleteHint,
    {
        if pos_at_line_end {
            AcceptAction::Complete
        } else {
            AcceptAction::CompleteHint
        }
    }
}

impl CTRLX {
    /// Arms the chord lock; reports whether a reset timer must be started.
    pub fn handle(&self, lock: &mut usize) -> (start_timer: bool)
        ensures
            *old(lock) == 0 ==> *final(lock) == 1 && start_timer,
            *old(lock) != 0 ==> *final(lock) == *old(lock) && !start_timer,
    {
        if *lock == 0 {
            *lock = 1;
            true
        } else {
            false
        }
    }
}

impl ExternalEditor {
    /// Whether the external-editor binding fires: in vi command mode, or
    /// in emacs mode while the chord lock is armed.
    pub fn should_edit(&self, vi_command_mode: bool, emacs_mode: bool, ctrlx_lock: usize) -> (r:
        bool)
        ensures
            r == (vi_command_mode || (emacs_mode && ctrlx_lock == 1)),
    {
        vi_command_mode || (emacs_mode && ctrlx_lock == 1)
    }
}

fn vec_eq_chars(a: &Vec<char>, b: &Vec<char>) -> (r: bool)
    ensures
        r == (a@ == b@),
{
    if a.len() != b.len() {
        return false;
    }
    let mut i: usize = 0;
    while i < a.len()
        invariant
            a@.len() == b@.len(),
            i <= a@.len(),
            forall|k: int| 0 <= k < i ==> a@[k] == b@[k],
        decreases a@.len() - i,
    {
        if a[i] != b[i] {
            return false;
        }
        i = i + 1;
    }
    proof {
        assert(a@ =~= b@);
    }
    true
}

/// What running a designated module amounts to: print the prompt as-is,
/// or hand a fully substituted command to the shell.
pub enum DesignatedAction {
    /// No designated module is set: the prompt is printed unchanged.
    PrintPrompt,
    /// A command to run, and whether to detach it from the session.
    Run { cmd: String, detach: bool },
}

/// The fallback command used when a designated module is missing.
pub open spec fn fallback_cmd() -> Seq<char> {
    "printf 'no default_module or empty_module found\n'"@
}

/// Resolves the default/empty-module path: which command runs, with the
/// prompt substituted (URL-encoded where the module asks for it), and
/// whether it is detached.
pub fn run_designated_module(modules: &Vec<Module>, prompt: &str, prfx: &str) -> (r:
    DesignatedAction)
    ensures
        prfx@.len() == 0 <==> r is PrintPrompt,
        prfx@.len() > 0 ==> (match find_module_spec(modules@, prfx@) {
            Some(k) => {
                let m = modules@[k];
                let arg = if m.url_encode == Some(true) {
                    url_encode_bytes(prompt.spec_bytes())
                } else {
                    prompt@
                };
                r is Run ==> r->Run_cmd@ == replace_braces(m.cmd@, arg) && r->Run_detach == (
                m.unbind_proc == Some(true))
            },
            None => r is Run ==> r->Run_cmd@ == replace_braces(fallback_cmd(), prompt@)
                && r->Run_detach == false,
        }),
{
    if prfx.unicode_len() == 0 {
        return DesignatedAction::PrintPrompt;
    }
    let prfx_chars = chars_of(prfx);
    let found = find_module(modules, &prfx_chars);
    match found {
        Some(i) => {
            let m = &modules[i];
            let encode_arg = match m.url_encode {
                Some(b) => b,
                None => false,
            };
            let arg = if encode_arg {
                url_encode(prompt)
            } else {
                prompt.to_owned()
            };
            let cmd = replace_placeholder(m.cmd.as_str(), arg.as_str());
            let detach = match m.unbind_proc {
                Some(b) => b,
                None => false,
            };
            DesignatedAction::Run { cmd, detach }
        },
        None => {
            let cmd = replace_placeholder(
                "printf 'no default_module or empty_module found\n'",
                prompt,
            );
            DesignatedAction::Run { cmd, detach: false }
        },
    }
}


/// Where the parenthesis opened before position `j` closes, given the
/// current nesting depth: the position just past the closing parenthesis.
pub open spec fn paren_end(s: Seq<char>, j: int, depth: int) -> Option<int>
    decreases s.len() - j,
{
    if depth <= 0 {
        Some(j)
    } else if j < 0 || j >= s.len() {
        None
    } else {
        paren_end(
            s,
            j + 1,
            depth + (if s[j] == '(' {
                1int
            } else if s[j] == ')' {
                -1int
            } else {
                0int
            }),
        )
    }
}

proof fn lemma_paren_end_bounds(s: Seq<char>, j: int, depth: int)
    requires
        0 <= j,
    ensures
        paren_end(s, j, depth) is Some ==> j <= paren_end(s, j, depth)->0 <= s.len() || depth
            <= 0,
        paren_end(s, j, depth) is Some && depth > 0 ==> j < paren_end(s, j, depth)->0 <= s.len(),
    decreases s.len() - j,
{
    if depth > 0 && 0 <= j < s.len() {
        lemma_paren_end_bounds(
            s,
            j + 1,
            depth + (if s[j] == '(' {
                1int
            } else if s[j] == ')' {
                -1int
            } else {
                0int
            }),
        );
    }
}

fn paren_end_exec(s: &Vec<char>, j: usize, depth: usize) -> (r: Option<usize>)
    requires
        j <= s@.len(),
    ensures
        r is Some <==> paren_end(s@, j as int, depth as int) is Some,
        r is Some ==> r->0 == paren_end(s@, j as int, depth as int)->0 && r->0 <= s@.len()
            && r->0 >= j,
        depth > 0 && r is Some ==> r->0 > j,
    decreases s@.len() - j,
{
    if depth == 0 {
        Some(j)
    } else if j >= s.len() {
        None
    } else if s[j] == '(' {
        if depth == usize::MAX {
            proof {
                lemma_paren_depth_bound(s@, j as int, depth as int);
            }
            None
        } else {
            paren_end_exec(s, j + 1, depth + 1)
        }
    } else if s[j] == ')' {
        paren_end_exec(s, j + 1, depth - 1)
    } else {
        paren_end_exec(s, j + 1, depth)
    }
}

proof fn lemma_paren_depth_bound(s: Seq<char>, j: int, depth: int)
    requires
        0 <= j < s.len(),
        s[j] == '(',
        depth >= s.len() - j,
    ensures
        paren_end(s, j, depth) is None,
    decreases s.len() - j,
{
    lemma_paren_depth_none(s, j, depth);
}

proof fn lemma_paren_depth_none(s: Seq<char>, j: int, depth: int)
    requires
        0 <= j,
        depth >= s.len() - j + 1 || (j < s.len() && s[j] == '(' && depth >= s.len() - j),
        depth > 0,
    ensures
        paren_end(s, j, depth) is None,
    decreases s.len() - j,
{
    if j < s.len() {
        let d2 = depth + (if s[j] == '(' {
            1int
        } else if s[j] == ')' {
            -1int
        } else {
            0int
        });
        assert(d2 >= s.len() - (j + 1) + 1);
        assert(d2 > 0);
        lemma_paren_depth_none(s, j + 1, d2);
    }
}

/// The first complete subshell reference `$( ... )` at or after position
/// `i`: its start and the position just past its closing parenthesis. An
/// unmatched `$(` is skipped as ordinary text, as the scanner does.
pub open spec fn first_subshell(s: Seq<char>, i: int) -> Option<(int, int)>
    decreases s.len() - i,
    via first_subshell_decreases
{
    if i < 0 || i >= s.len() {
        None
    } else if s[i] == '$' && i + 1 < s.len() && s[i + 1] == '(' && paren_end(s, i + 2, 1)
        is Some {
        Some((i, paren_end(s, i + 2, 1)->0))
    } else {
        first_subshell(s, i + 1)
    }
}

#[via_fn]
proof fn first_subshell_decreases(s: Seq<char>, i: int) {
}

/// One step of separator/footer expansion: the literal text before the
/// first complete subshell reference, and, if one is present, the command
/// inside it together with the unscanned remainder.
pub fn split_subshell_once(s: &str) -> (r: (String, Option<(String, String)>))
    ensures
        r.1 is Some <==> first_subshell(s@, 0) is Some,
        (match first_subshell(s@, 0) {
            Some((st, en)) => r.1 is Some && r.0@ == s@.subrange(0, st) && (r.1->0).0@
                == s@.subrange(st + 2, en - 1) && (r.1->0).1@ == s@.skip(en),
            None => r.0@ == s@,
        }),
        r.1 is Some ==> (r.1->0).1@.len() < s@.len(),
{
    let chars = chars_of(s);
    let mut i: usize = 0;
    proof {
        assert(s@.skip(0) =~= s@);
    }
    while i < chars.len()
        invariant
            i <= chars@.len(),
            chars@ == s@,
            first_subshell(s@, 0) == first_subshell(s@, i as int),
        decreases chars@.len() - i,
    {
        if chars[i] == '$' && i + 1 < chars.len() && chars[i + 1] == '(' {
            match paren_end_exec(&chars, i + 2, 1) {
                Some(en) => {
                    proof {
                        lemma_paren_end_bounds(s@, i as int + 2, 1);
                    }
                    let text = vec_skip_to(&chars, 0, i);
                    let cmd = vec_skip_to(&chars, i + 2, en - 1);
                    let rest = vec_skip_to(&chars, en, chars.len());
                    proof {
                        assert(rest@ =~= s@.skip(en as int));
                    }
                    return (string_of(&text), Some((string_of(&cmd), string_of(&rest))));
                },
                None => {},
            }
        }
        i = i + 1;
    }
    let text = vec_skip_to(&chars, 0, chars.len());
    proof {
        assert(text@ =~= s@);
    }
    (string_of(&text), None)
}

fn vec_skip_to(s: &Vec<char>, from: usize, to: usize) -> (r: Vec<char>)
    requires
        from <= to <= s@.len(),
    ensures
        r@ == s@.subrange(from as int, to as int),
{
    let mut r: Vec<char> = Vec::new();
    let mut k: usize = from;
    while k < to
        invariant
            from <= k <= to <= s@.len(),
            r@ == s@.subrange(from as int, k as int),
        decreases to - k,
    {
        r.push(s[k]);
        k = k + 1;
        proof {
            assert(r@ =~= s@.subrange(from as int, k as int));
        }
    }
    r
}

/// Characters that may start an environment-variable name.
pub open spec fn is_var_start(c: char) -> bool {
    ('A' <= c && c <= 'Z') || ('a' <= c && c <= 'z') || c == '_'
}

/// Characters that may continue an environment-variable name.
pub open spec fn is_var_char(c: char) -> bool {
    is_var_start(c) || ('0' <= c && c <= '9')
}

fn is_var_start_exec(c: char) -> (r: bool)
    ensures
        r == is_var_start(c),
{
    ('A' <= c && c <= 'Z') || ('a' <= c && c <= 'z') || c == '_'
}

fn is_var_char_exec(c: char) -> (r: bool)
    ensures
        r == is_var_char(c),
{
    is_var_start_exec(c) || ('0' <= c && c <= '9')
}

/// The position of the first environment-variable reference (`$` followed
/// by a letter or underscore) at or after `i`.
pub open spec fn first_var(s: Seq<char>, i: int) -> Option<int>
    decreases s.len() - i,
{
    if i < 0 || i >= s.len() {
        None
    } else if s[i] == '$' && i + 1 < s.len() && is_var_start(s[i + 1]) {
        Some(i)
    } else {
        first_var(s, i + 1)
    }
}

/// The length of the variable name starting at `i`.
pub open spec fn var_name_end(s: Seq<char>, i: int) -> int
    decreases s.len() - i,
{
    if 0 <= i < s.len() && is_var_char(s[i]) {
        var_name_end(s, i + 1)
    } else {
        i
    }
}

/// One step of environment-variable expansion: the literal text before
/// the first variable reference and, if one is present, the variable's
/// name together with the unscanned remainder.
pub fn split_var_once(s: &str) -> (r: (String, Option<(String, String)>))
    ensures
        r.1 is Some <==> first_var(s@, 0) is Some,
        (match first_var(s@, 0) {
            Some(st) => {
                let en = var_name_end(s@, st + 1);
                r.1 is Some && r.0@ == s@.subrange(0, st) && (r.1->0).0@ == s@.subrange(st + 1, en)
                    && (r.1->0).1@ == s@.skip(en)
            },
            None => r.0@ == s@,
        }),
        r.1 is Some ==> (r.1->0).1@.len() < s@.len(),
{
    let chars = chars_of(s);
    let mut i: usize = 0;
    while i < chars.len()
        invariant
            i <= chars@.len(),
            chars@ == s@,
            first_var(s@, 0) == first_var(s@, i as int),
        decreases chars@.len() - i,
    {
        if chars[i] == '$' && i + 1 < chars.len() && is_var_start_exec(chars[i + 1]) {
            let mut en: usize = i + 1;
            while en < chars.len() && is_var_char_exec(chars[en])
                invariant
                    i + 1 <= en <= chars@.len(),
                    chars@ == s@,
                    var_name_end(s@, i as int + 1) == var_name_end(s@, en as int),
                decreases chars@.len() - en,
            {
                en = en + 1;
            }
            proof {
                assert(var_name_end(s@, en as int) == en);
            }
            let text = vec_skip_to(&chars, 0, i);
            let name = vec_skip_to(&chars, i + 1, en);
            let rest = vec_skip_to(&chars, en, chars.len());
            proof {
                assert(rest@ =~= s@.skip(en as int));
            }
            return (string_of(&text), Some((string_of(&name), string_of(&rest))));
        }
        i = i + 1;
    }
    let text = vec_skip_to(&chars, 0, chars.len());
    proof {
        assert(text@ =~= s@);
    }
    (string_of(&text), None)
}

/// Captured subshell output with one trailing newline removed, then one
/// trailing carriage return, as a shell substitution would.
pub open spec fn shell_trimmed(s: Seq<char>) -> Seq<char> {
    let t = if s.len() > 0 && s[s.len() - 1] == '\n' {
        s.drop_last()
    } else {
        s
    };
    if t.len() > 0 && t[t.len() - 1] == '\r' {
        t.drop_last()
    } else {
        t
    }
}

/// Removes the single trailing line break of captured subshell output.
pub fn trim_shell_output(s: &str) -> (r: String)
    ensures
        r@ == shell_trimmed(s@),
{
    let chars = chars_of(s);
    let mut n = chars.len();
    if n > 0 && chars[n - 1] == '\n' {
        n = n - 1;
    }
    if n > 0 && chars[n - 1] == '\r' {
        n = n - 1;
    }
    let kept = vec_skip_to(&chars, 0, n);
    proof {
        assert(kept@ =~= shell_trimmed(s@));
    }
    string_of(&kept)
}


proof fn lemma_first_subshell_bounds(s: Seq<char>, i: int)
    requires
        0 <= i,
    ensures
        first_subshell(s, i) is Some ==> {
            let (st, en) = first_subshell(s, i)->0;
            i <= st && st + 2 < en && en <= s.len()
        },
    decreases s.len() - i,
{
    if 0 <= i < s.len() {
        if s[i] == '$' && i + 1 < s.len() && s[i + 1] == '(' && paren_end(s, i + 2, 1)
            is Some {
            lemma_paren_end_bounds(s, i + 2, 1);
        } else {
            lemma_first_subshell_bounds(s, i + 1);
        }
    }
}

proof fn lemma_var_name_end_range(s: Seq<char>, j: int)
    requires
        0 <= j <= s.len(),
    ensures
        j <= var_name_end(s, j) <= s.len(),
    decreases s.len() - j,
{
    if j < s.len() && is_var_char(s[j]) {
        lemma_var_name_end_range(s, j + 1);
    }
}

proof fn lemma_first_var_bounds(s: Seq<char>, i: int)
    requires
        0 <= i,
    ensures
        first_var(s, i) is Some ==> {
            let st = first_var(s, i)->0;
            i <= st && st + 1 < s.len()
        },
    decreases s.len() - i,
{
    if 0 <= i < s.len() {
        if !(s[i] == '$' && i + 1 < s.len() && is_var_start(s[i + 1])) {
            lemma_first_var_bounds(s, i + 1);
        }
    }
}

/// The literal stretches of text around the subshell references, in order.
pub open spec fn subshell_texts(s: Seq<char>) -> Seq<Seq<char>>
    decreases s.len(),
    via subshell_texts_decreases
{
    match first_subshell(s, 0) {
        Some((st, en)) => seq![s.subrange(0, st)] + subshell_texts(s.skip(en)),
        None => seq![s],
    }
}

#[via_fn]
proof fn subshell_texts_decreases(s: Seq<char>) {
    lemma_first_subshell_bounds(s, 0);
}

/// The commands inside the subshell references, in order.
pub open spec fn subshell_cmds(s: Seq<char>) -> Seq<Seq<char>>
    decreases s.len(),
    via subshell_cmds_decreases
{
    match first_subshell(s, 0) {
        Some((st, en)) => seq![s.subrange(st + 2, en - 1)] + subshell_cmds(s.skip(en)),
        None => Seq::empty(),
    }
}

#[via_fn]
proof fn subshell_cmds_decreases(s: Seq<char>) {
    lemma_first_subshell_bounds(s, 0);
}

/// Decomposes the text around its subshell references: the literal
/// stretches and, between each pair, the command of one reference.
pub fn split_subshells(s: &str) -> (r: (Vec<String>, Vec<String>))
    ensures
        views_of(r.0@) == subshell_texts(s@),
        views_of(r.1@) == subshell_cmds(s@),
        r.0@.len() == r.1@.len() + 1,
{
    let mut texts: Vec<String> = Vec::new();
    let mut cmds: Vec<String> = Vec::new();
    let mut cur = s.to_owned();
    proof {
        assert(views_of(texts@) =~= Seq::<Seq<char>>::empty());
        assert(views_of(cmds@) =~= Seq::<Seq<char>>::empty());
        assert(subshell_texts(s@) =~= views_of(texts@) + subshell_texts(cur@));
        assert(subshell_cmds(s@) =~= views_of(cmds@) + subshell_cmds(cur@));
    }
    loop
        invariant
            subshell_texts(s@) == views_of(texts@) + subshell_texts(cur@),
            subshell_cmds(s@) == views_of(cmds@) + subshell_cmds(cur@),
            texts@.len() == cmds@.len(),
        decreases cur@.len(),
    {
        let step = split_subshell_once(cur.as_str());
        match step.1 {
            Some((cmd, rest)) => {
                proof {
                    assert(views_of(texts@.push(step.0)) =~= views_of(texts@) + seq![step.0@]);
                    assert(views_of(cmds@.push(cmd)) =~= views_of(cmds@) + seq![cmd@]);
                }
                texts.push(step.0);
                cmds.push(cmd);
                proof {
                    assert(views_of(texts@) + subshell_texts(rest@) =~= subshell_texts(s@));
                    assert(views_of(cmds@) + subshell_cmds(rest@) =~= subshell_cmds(s@));
                }
                cur = rest;
            },
            None => {
                proof {
                    assert(views_of(texts@.push(step.0)) =~= views_of(texts@) + seq![step.0@]);
                }
                texts.push(step.0);
                proof {
                    assert(subshell_cmds(cur@) =~= Seq::<Seq<char>>::empty());
                    assert(views_of(texts@) =~= subshell_texts(s@));
                    assert(views_of(cmds@) =~= subshell_cmds(s@));
                }
                return (texts, cmds);
            },
        }
    }
}

/// The literal stretches of text around the variable references, in order.
pub open spec fn var_texts(s: Seq<char>) -> Seq<Seq<char>>
    decreases s.len(),
    via var_texts_decreases
{
    match first_var(s, 0) {
        Some(st) => seq![s.subrange(0, st)] + var_texts(s.skip(var_name_end(s, st + 1))),
        None => seq![s],
    }
}

#[via_fn]
proof fn var_texts_decreases(s: Seq<char>) {
    lemma_first_var_bounds(s, 0);
    match first_var(s, 0) {
        Some(st) => {
            lemma_var_name_end_range(s, st + 1);
        },
        None => {},
    }
}

/// The names of the variable references, in order.
pub open spec fn var_names(s: Seq<char>) -> Seq<Seq<char>>
    decreases s.len(),
    via var_names_decreases
{
    match first_var(s, 0) {
        Some(st) => seq![s.subrange(st + 1, var_name_end(s, st + 1))] + var_names(
            s.skip(var_name_end(s, st + 1)),
        ),
        None => Seq::empty(),
    }
}

#[via_fn]
proof fn var_names_decreases(s: Seq<char>) {
    lemma_first_var_bounds(s, 0);
    match first_var(s, 0) {
        Some(st) => {
            lemma_var_name_end_range(s, st + 1);
        },
        None => {},
    }
}

/// Decomposes the text around its environment-variable references: the
/// literal stretches and, between each pair, the name of one reference.
pub fn split_vars(s: &str) -> (r: (Vec<String>, Vec<String>))
    ensures
        views_of(r.0@) == var_texts(s@),
        views_of(r.1@) == var_names(s@),
        r.0@.len() == r.1@.len() + 1,
{
    let mut texts: Vec<String> = Vec::new();
    let mut names: Vec<String> = Vec::new();
    let mut cur = s.to_owned();
    proof {
        assert(views_of(texts@) =~= Seq::<Seq<char>>::empty());
        assert(views_of(names@) =~= Seq::<Seq<char>>::empty());
        assert(var_texts(s@) =~= views_of(texts@) + var_texts(cur@));
        assert(var_names(s@) =~= views_of(names@) + var_names(cur@));
    }
    loop
        invariant
            var_texts(s@) == views_of(texts@) + var_texts(cur@),
            var_names(s@) == views_of(names@) + var_names(cur@),
            texts@.len() == names@.len(),
        decreases cur@.len(),
    {
        let step = split_var_once(cur.as_str());
        match step.1 {
            Some((name, rest)) => {
                proof {
                    assert(views_of(texts@.push(step.0)) =~= views_of(texts@) + seq![step.0@]);
                    assert(views_of(names@.push(name)) =~= views_of(names@) + seq![name@]);
                }
                texts.push(step.0);
                names.push(name);
                proof {
                    assert(views_of(texts@) + var_texts(rest@) =~= var_texts(s@));
                    assert(views_of(names@) + var_names(rest@) =~= var_names(s@));
                }
                cur = rest;
            },
            None => {
                proof {
                    assert(views_of(texts@.push(step.0)) =~= views_of(texts@) + seq![step.0@]);
                }
                texts.push(step.0);
                proof {
                    assert(var_names(cur@) =~= Seq::<Seq<char>>::empty());
                    assert(views_of(texts@) =~= var_texts(s@));
                    assert(views_of(names@) =~= var_names(s@));
                }
                return (texts, names);
            },
        }
    }
}

/// Texts and fills alternated: each reference's replacement spliced back
/// between the literal stretches around it.
pub open spec fn interleave(texts: Seq<Seq<char>>, fills: Seq<Seq<char>>) -> Seq<char>
    decreases fills.len(),
{
    if texts.len() == 0 {
        Seq::empty()
    } else if fills.len() == 0 {
        texts[0]
    } else {
        texts[0] + fills[0] + interleave(texts.skip(1), fills.skip(1))
    }
}

/// Splices replacement values back between the literal stretches.
pub fn splice_segments(texts: &Vec<String>, fills: &Vec<String>) -> (r: String)
    requires
        texts@.len() == fills@.len() + 1,
    ensures
        r@ == interleave(views_of(texts@), views_of(fills@)),
{
    let mut out = String::new();
    let mut i: usize = 0;
    proof {
        assert(views_of(texts@).skip(0) =~= views_of(texts@));
        assert(views_of(fills@).skip(0) =~= views_of(fills@));
    }
    while i < fills.len()
        invariant
            texts@.len() == fills@.len() + 1,
            i <= fills@.len(),
            interleave(views_of(texts@), views_of(fills@)) == out@ + interleave(
                views_of(texts@).skip(i as int),
                views_of(fills@).skip(i as int),
            ),
        decreases fills@.len() - i,
    {
        proof {
            crate::text::lemma_skip_one(views_of(texts@), i as int);
            crate::text::lemma_skip_one(views_of(fills@), i as int);
        }
        out.append(texts[i].as_str());
        out.append(fills[i].as_str());
        i = i + 1;
        proof {
            assert(interleave(views_of(texts@), views_of(fills@)) =~= out@ + interleave(
                views_of(texts@).skip(i as int),
                views_of(fills@).skip(i as int),
            ));
        }
    }
    out.append(texts[i].as_str());
    proof {
        assert(views_of(texts@).skip(i as int)[0] == views_of(texts@)[i as int]);
        assert(views_of(fills@).skip(i as int) =~= Seq::<Seq<char>>::empty());
        assert(out@ =~= interleave(views_of(texts@), views_of(fills@)));
    }
    out
}

} // verus!
