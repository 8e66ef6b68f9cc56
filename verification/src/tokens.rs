//! The command model and the tokenizer.
//!
//! One line of shell-like input is turned into a `Statement`: an ordered list
//! of `(CommandParams, Terminator)` pairs. The tokenizer is a character state
//! machine; its whole behaviour is given by the spec functions `spec_tokenize`
//! and `lex_from`, and the executable `tokenize` is proved to agree with them.

use vstd::prelude::*;

use crate::builtins::spec_is_builtin_name;

verus! {

/// What stands after a command: `|` feeds its output to the next command,
/// `;` or a line break ends it sequentially, and the final command of a
/// statement carries `Implicit` when no terminator character followed it.
#[derive(Debug, PartialEq, Eq, Structural, Clone, Copy)]
pub enum Terminator {
    Pipe,
    EndCmd,
    Implicit,
}

/// One parsed command: the executable name or path, its arguments in order,
/// and whether the name belongs to the builtin registry.
#[derive(Debug)]
pub struct CommandParams {
    pub invoking: String,
    pub args: Vec<String>,
    pub is_builtin: bool,
}

/// The mathematical value of a `CommandParams`.
#[verifier::ext_equal]
pub struct CommandView {
    pub invoking: Seq<char>,
    pub args: Seq<Seq<char>>,
    pub is_builtin: bool,
}

impl View for CommandParams {
    type V = CommandView;

    open spec fn view(&self) -> CommandView {
        CommandView {
            invoking: self.invoking@,
            args: self.args@.map_values(|a: String| a@),
            is_builtin: self.is_builtin,
        }
    }
}

/// Why a parse failed.
#[derive(Debug, PartialEq, Eq, Structural, Clone, Copy)]
pub enum ParseErrKind {
    InvalidChar,
    InvalidTerminator,
    TerminatorTooEarly,
}

/// A parse error: its kind, a human-readable message, and the index of the
/// offending character.
#[derive(Debug)]
pub struct ParseErr {
    pub kind: ParseErrKind,
    pub message: String,
    pub index: usize,
}

/// True of the three command terminator characters.
pub open spec fn spec_is_terminator(c: char) -> bool {
    c == '|' || c == ';' || c == '\n'
}

/// True of the whitespace that separates tokens outside quotes: space, tab,
/// carriage return. The line break is a terminator, not token whitespace.
pub open spec fn spec_is_space(c: char) -> bool {
    c == ' ' || c == '\t' || c == '\r'
}

/// Escape decoding for the raw characters of a quoted span: `\"` yields `"`
/// and `\\` yields `\`; a backslash before any other character, or a lone
/// backslash at the end, passes through literally.
pub open spec fn spec_unescape(s: Seq<char>) -> Seq<char>
    decreases s.len(),
{
    if s.len() == 0 {
        Seq::empty()
    } else if s[0] == '\\' {
        if s.len() >= 2 {
            if s[1] == '"' || s[1] == '\\' {
                seq![s[1]] + spec_unescape(s.skip(2))
            } else {
                seq![s[0], s[1]] + spec_unescape(s.skip(2))
            }
        } else {
            seq!['\\']
        }
    } else {
        seq![s[0]] + spec_unescape(s.skip(1))
    }
}

/// The lexical mode of the tokenizer: collecting the invoked name, collecting
/// an argument, inside a double-quoted span, or inside a variable reference.
#[derive(Debug, PartialEq, Eq, Structural, Clone, Copy)]
pub enum TokenizeMode {
    Command,
    Arg,
    Quoted,
    Var,
}

/// The full state of the tokenizer between two characters: the lexical mode,
/// whether the last quoted character was an undecoded backslash, the raw
/// characters of the pending token, the command being accumulated (its name
/// once one was flushed, then its arguments), and the finished pairs.
#[verifier::ext_equal]
pub struct LexState {
    pub mode: TokenizeMode,
    pub esc: bool,
    pub buf: Seq<char>,
    pub has_invoking: bool,
    pub invoking: Seq<char>,
    pub args: Seq<Seq<char>>,
    pub out: Seq<(CommandView, Terminator)>,
}

/// A parse error at the specification level: its kind and character index.
pub struct LexErr {
    pub kind: ParseErrKind,
    pub index: int,
}

/// What one character does to the tokenizer: carry on in a new state, end the
/// statement (a line break), or fail.
pub enum LexStep {
    Next(LexState),
    Stop(Seq<(CommandView, Terminator)>),
    Fail(LexErr),
}

/// The state the tokenizer starts a line, and every new command, in.
pub open spec fn init_state() -> LexState {
    LexState {
        mode: TokenizeMode::Command,
        esc: false,
        buf: Seq::empty(),
        has_invoking: false,
        invoking: Seq::empty(),
        args: Seq::empty(),
        out: Seq::empty(),
    }
}

/// Flush one completed token into the last unset field: the invoked name if
/// none was set yet, else a new argument. The pending buffer empties and the
/// tokenizer stands at a token boundary.
pub open spec fn flush_token(s: LexState, tok: Seq<char>) -> LexState {
    if !s.has_invoking {
        LexState {
            mode: TokenizeMode::Arg,
            esc: false,
            buf: Seq::empty(),
            has_invoking: true,
            invoking: tok,
            ..s
        }
    } else {
        LexState {
            mode: TokenizeMode::Arg,
            esc: false,
            buf: Seq::empty(),
            args: s.args.push(tok),
            ..s
        }
    }
}

/// The command the accumulated state denotes; its builtin flag comes from the
/// registry lookup on the invoked name.
pub open spec fn cur_command(s: LexState) -> CommandView {
    CommandView {
        invoking: s.invoking,
        args: s.args,
        is_builtin: spec_is_builtin_name(s.invoking),
    }
}

/// Append the accumulated command with the given terminator and reset every
/// per-command part of the state.
pub open spec fn emit_command(s: LexState, t: Terminator) -> LexState {
    LexState {
        mode: TokenizeMode::Command,
        esc: false,
        buf: Seq::empty(),
        has_invoking: false,
        invoking: Seq::empty(),
        args: Seq::empty(),
        out: s.out.push((cur_command(s), t)),
    }
}

/// A terminator character seen at a token boundary (any pending token already
/// flushed). With no command before it, it comes too early. `|` and `;` close
/// the command and carry on; a line break closes the command with the
/// implicit terminator and ends the statement, ignoring the rest of the
/// input.
pub open spec fn handle_terminator(s: LexState, c: char, i: int) -> LexStep {
    if !s.has_invoking {
        LexStep::Fail(LexErr { kind: ParseErrKind::TerminatorTooEarly, index: i })
    } else if c == '|' {
        LexStep::Next(emit_command(s, Terminator::Pipe))
    } else if c == ';' {
        LexStep::Next(emit_command(s, Terminator::EndCmd))
    } else {
        LexStep::Stop(emit_command(s, Terminator::Implicit).out)
    }
}

/// One character of tokenizing.
///
/// Inside a quoted span every character is literal except the closing quote
/// and the backslash, which defers to escape decoding. Inside a variable
/// reference, whitespace and terminator characters end the reference — which
/// this core resolves to the empty string — and every other character belongs
/// to the name. Elsewhere, whitespace delimits tokens (consecutive whitespace
/// collapses), a quote or variable sigil is only legal as the first character
/// of a token, and a terminator character closes the command.
pub open spec fn lex_step(s: LexState, c: char, i: int) -> LexStep {
    match s.mode {
        TokenizeMode::Quoted => {
            if s.esc {
                LexStep::Next(LexState { buf: s.buf.push(c), esc: false, ..s })
            } else if c == '"' {
                LexStep::Next(flush_token(s, spec_unescape(s.buf)))
            } else if c == '\\' {
                LexStep::Next(LexState { buf: s.buf.push('\\'), esc: true, ..s })
            } else {
                LexStep::Next(LexState { buf: s.buf.push(c), ..s })
            }
        },
        TokenizeMode::Var => {
            if spec_is_space(c) {
                LexStep::Next(flush_token(s, Seq::empty()))
            } else if spec_is_terminator(c) {
                handle_terminator(flush_token(s, Seq::empty()), c, i)
            } else {
                LexStep::Next(LexState { buf: s.buf.push(c), ..s })
            }
        },
        _ => {
            if spec_is_space(c) {
                if s.buf.len() == 0 {
                    LexStep::Next(s)
                } else {
                    LexStep::Next(flush_token(s, s.buf))
                }
            } else if c == '"' {
                if s.buf.len() == 0 {
                    LexStep::Next(LexState { mode: TokenizeMode::Quoted, esc: false, ..s })
                } else {
                    LexStep::Fail(LexErr { kind: ParseErrKind::InvalidChar, index: i })
                }
            } else if c == '$' {
                if s.buf.len() == 0 {
                    LexStep::Next(LexState { mode: TokenizeMode::Var, ..s })
                } else {
                    LexStep::Fail(LexErr { kind: ParseErrKind::InvalidChar, index: i })
                }
            } else if spec_is_terminator(c) {
                handle_terminator(
                    if s.buf.len() == 0 {
                        s
                    } else {
                        flush_token(s, s.buf)
                    },
                    c,
                    i,
                )
            } else {
                LexStep::Next(LexState { buf: s.buf.push(c), ..s })
            }
        },
    }
}

/// End of input without a line break: an open quoted span or variable
/// reference closes leniently, a pending token flushes, a pending command
/// closes with the implicit terminator, and a statement that would end with a
/// dangling `|` has that terminator read as `;` instead.
pub open spec fn lex_finish(s: LexState) -> Seq<(CommandView, Terminator)> {
    let s1 = match s.mode {
        TokenizeMode::Quoted => flush_token(s, spec_unescape(s.buf)),
        TokenizeMode::Var => flush_token(s, Seq::empty()),
        _ => if s.buf.len() == 0 {
            s
        } else {
            flush_token(s, s.buf)
        },
    };
    let out = if s1.has_invoking {
        emit_command(s1, Terminator::Implicit).out
    } else {
        s1.out
    };
    if out.len() > 0 && out.last().1 == Terminator::Pipe {
        out.update(out.len() - 1, (out.last().0, Terminator::EndCmd))
    } else {
        out
    }
}

/// Tokenizing from state `s` at character `i` to the end of the input.
pub open spec fn lex_from(s: LexState, input: Seq<char>, i: int) -> Result<
    Seq<(CommandView, Terminator)>,
    LexErr,
>
    decreases input.len() - i,
{
    if i < 0 || i >= input.len() {
        Ok(lex_finish(s))
    } else {
        match lex_step(s, input[i], i) {
            LexStep::Next(s2) => lex_from(s2, input, i + 1),
            LexStep::Stop(stmt) => Ok(stmt),
            LexStep::Fail(e) => Err(e),
        }
    }
}

/// What tokenizing a whole line yields: the statement, or the first error.
pub open spec fn spec_tokenize(input: Seq<char>) -> Result<
    Seq<(CommandView, Terminator)>,
    LexErr,
> {
    lex_from(init_state(), input, 0)
}

/// The mathematical value of a finished statement.
pub open spec fn stmt_view(v: Seq<(CommandParams, Terminator)>) -> Seq<(CommandView, Terminator)> {
    v.map_values(|p: (CommandParams, Terminator)| (p.0@, p.1))
}

/// The message each kind of parse error carries.
pub open spec fn spec_err_message(k: ParseErrKind) -> Seq<char> {
    match k {
        ParseErrKind::InvalidChar => "quote or variable sigil in the middle of a token"@,
        ParseErrKind::InvalidTerminator => "terminator handling reached an impossible state"@,
        ParseErrKind::TerminatorTooEarly => "terminator with no command before it"@,
    }
}

/// A well-formed statement: every entry but the last carries an explicit
/// terminator, and a statement never ends with a dangling pipe.
pub open spec fn wf_stmt(stmt: Seq<(CommandView, Terminator)>) -> bool {
    (forall|j: int| 0 <= j < stmt.len() - 1 ==> stmt[j].1 != Terminator::Implicit) && (stmt.len()
        > 0 ==> stmt[stmt.len() - 1].1 != Terminator::Pipe)
}

/// No entry carries the implicit terminator: true of the finished pairs at
/// every point while a line is still being tokenized.
pub open spec fn no_implicit(out: Seq<(CommandView, Terminator)>) -> bool {
    forall|j: int| 0 <= j < out.len() ==> out[j].1 != Terminator::Implicit
}

/// Closing a tokenizer state at end of input keeps the statement well
/// formed.
proof fn lemma_finish_wf(s: LexState)
    requires
        no_implicit(s.out),
    ensures
        wf_stmt(lex_finish(s)),
{
    let s1 = (match s.mode {
        TokenizeMode::Quoted => flush_token(s, spec_unescape(s.buf)),
        TokenizeMode::Var => flush_token(s, Seq::empty()),
        _ => if s.buf.len() == 0 {
            s
        } else {
            flush_token(s, s.buf)
        },
    });
    assert(s1.out == s.out);
    let out = (if s1.has_invoking {
        emit_command(s1, Terminator::Implicit).out
    } else {
        s1.out
    });
    if out.len() > 0 && out.last().1 == Terminator::Pipe {
        let fixed = out.update(out.len() - 1, (out.last().0, Terminator::EndCmd));
        assert(wf_stmt(fixed));
    } else {
        assert(wf_stmt(out));
    }
}

/// Tokenizing from a state whose finished pairs carry no implicit terminator
/// yields, on success, a well-formed statement, and, on failure, an error of
/// a reachable kind whose index points at a character at or after the
/// current one.
proof fn lemma_lex_from_wf(s: LexState, input: Seq<char>, i: int)
    requires
        no_implicit(s.out),
    ensures
        lex_from(s, input, i) matches Ok(stmt) ==> wf_stmt(stmt),
        lex_from(s, input, i) matches Err(e) ==> (e.kind == ParseErrKind::InvalidChar || e.kind
            == ParseErrKind::TerminatorTooEarly) && i <= e.index < input.len(),
    decreases input.len() - i,
{
    if i < 0 || i >= input.len() {
        lemma_finish_wf(s);
    } else {
        match lex_step(s, input[i], i) {
            LexStep::Next(s2) => {
                assert(no_implicit(s2.out));
                lemma_lex_from_wf(s2, input, i + 1);
            },
            LexStep::Stop(stmt) => {
                assert(wf_stmt(stmt));
            },
            LexStep::Fail(e) => {},
        }
    }
}

/// Law: every statement the tokenizer yields is well formed — only the final
/// command may carry the implicit terminator, and no statement ends with a
/// dangling pipe — and every error it yields is a `TerminatorTooEarly` or an
/// `InvalidChar` whose index points at a character of the input.
pub proof fn lemma_tokenize_well_formed(input: Seq<char>)
    ensures
        spec_tokenize(input) matches Ok(stmt) ==> wf_stmt(stmt),
        spec_tokenize(input) matches Err(e) ==> (e.kind == ParseErrKind::InvalidChar || e.kind
            == ParseErrKind::TerminatorTooEarly) && 0 <= e.index < input.len(),
{
    lemma_lex_from_wf(init_state(), input, 0);
}

/// A character with no lexical role: not token whitespace, not a
/// terminator, not a quote, not a variable sigil.
pub open spec fn spec_is_plain(c: char) -> bool {
    !spec_is_space(c) && !spec_is_terminator(c) && c != '"' && c != '$'
}

/// Tokenizing a run of plain characters accumulates them, one by one, into
/// the pending token.
proof fn lemma_plain_run(s: LexState, input: Seq<char>, i: int, j: int)
    requires
        0 <= i <= j <= input.len(),
        forall|k: int| i <= k < j ==> spec_is_plain(input[k]),
        s.mode == TokenizeMode::Command || s.mode == TokenizeMode::Arg,
    ensures
        lex_from(s, input, i) == lex_from(
            LexState { buf: s.buf + input.subrange(i, j), ..s },
            input,
            j,
        ),
    decreases j - i,
{
    if i == j {
        assert(s.buf + input.subrange(i, j) =~= s.buf);
        assert((LexState { buf: s.buf + input.subrange(i, j), ..s }) =~~= s);
    } else {
        let c = input[i];
        let s2 = LexState { buf: s.buf.push(c), ..s };
        assert(lex_step(s, c, i) == LexStep::Next(s2));
        lemma_plain_run(s2, input, i + 1, j);
        assert(s2.buf + input.subrange(i + 1, j) =~= s.buf + input.subrange(i, j));
        assert((LexState { buf: s2.buf + input.subrange(i + 1, j), ..s2 }) =~~= (LexState {
            buf: s.buf + input.subrange(i, j),
            ..s
        }));
    }
}

/// A usable single-command token: nonempty, made of plain characters.
pub open spec fn plain_token(t: Seq<char>) -> bool {
    t.len() > 0 && forall|k: int| 0 <= k < t.len() ==> spec_is_plain(#[trigger] t[k])
}

/// The tokens of a single command, joined by single spaces.
pub open spec fn join_tokens(ts: Seq<Seq<char>>) -> Seq<char>
    decreases ts.len(),
{
    if ts.len() == 0 {
        Seq::empty()
    } else if ts.len() == 1 {
        ts[0]
    } else {
        ts[0] + seq![' '] + join_tokens(ts.skip(1))
    }
}

/// Flushing a list of tokens, in order, into the accumulated command.
pub open spec fn flush_tokens(s: LexState, ts: Seq<Seq<char>>) -> LexState
    decreases ts.len(),
{
    if ts.len() == 0 {
        s
    } else {
        flush_tokens(flush_token(s, ts[0]), ts.skip(1))
    }
}

/// Flushing tokens into a command whose name is already set appends them all
/// as arguments, touching nothing else.
proof fn lemma_flush_tokens_args(s: LexState, ts: Seq<Seq<char>>)
    requires
        s.has_invoking,
    ensures
        flush_tokens(s, ts).has_invoking,
        flush_tokens(s, ts).invoking == s.invoking,
        flush_tokens(s, ts).args == s.args + ts,
        flush_tokens(s, ts).out == s.out,
    decreases ts.len(),
{
    if ts.len() == 0 {
        assert(s.args + ts =~= s.args);
    } else {
        let s2 = flush_token(s, ts[0]);
        lemma_flush_tokens_args(s2, ts.skip(1));
        assert(s.args.push(ts[0]) + ts.skip(1) =~= s.args + ts);
    }
}

/// From a token boundary, a run of space-joined plain tokens closed by a
/// line break tokenizes to the pending command with those tokens flushed,
/// emitted with the implicit terminator.
proof fn lemma_command_tokens(s: LexState, input: Seq<char>, i: int, ts: Seq<Seq<char>>)
    requires
        0 <= i <= input.len(),
        s.mode == TokenizeMode::Command || s.mode == TokenizeMode::Arg,
        s.buf.len() == 0,
        ts.len() > 0,
        forall|j: int| 0 <= j < ts.len() ==> plain_token(#[trigger] ts[j]),
        input.subrange(i, input.len() as int) == join_tokens(ts) + seq!['\n'],
    ensures
        lex_from(s, input, i) == Ok::<Seq<(CommandView, Terminator)>, LexErr>(
            emit_command(flush_tokens(s, ts), Terminator::Implicit).out,
        ),
    decreases ts.len(),
{
    let t = ts[0];
    let j = i + t.len();
    assert(input.subrange(i, input.len() as int).len() == join_tokens(ts).len() + 1);
    assert(join_tokens(ts).len() >= t.len());
    assert forall|k: int| i <= k < j implies spec_is_plain(input[k]) by {
        assert(input[k] == input.subrange(i, input.len() as int)[k - i]);
        assert((join_tokens(ts) + seq!['\n'])[k - i] == t[k - i]);
    }
    lemma_plain_run(s, input, i, j);
    let x = LexState { buf: t, ..s };
    assert(s.buf + input.subrange(i, j) =~= t) by {
        assert forall|k: int| 0 <= k < t.len() implies (s.buf + input.subrange(i, j))[k]
            == t[k] by {
            assert(input[i + k] == input.subrange(i, input.len() as int)[k]);
            assert((join_tokens(ts) + seq!['\n'])[k] == t[k]);
        }
    }
    assert((LexState { buf: s.buf + input.subrange(i, j), ..s }) =~~= x);
    let mid = flush_token(x, t);
    assert(mid =~~= flush_token(s, t));
    if ts.len() == 1 {
        assert(input[j] == (join_tokens(ts) + seq!['\n'])[j - i]);
        assert(input[j] == '\n');
        assert(lex_step(x, '\n', j) == handle_terminator(mid, '\n', j));
        assert(handle_terminator(mid, '\n', j) == LexStep::Stop(
            emit_command(mid, Terminator::Implicit).out,
        ));
        assert(lex_from(x, input, j) == Ok::<Seq<(CommandView, Terminator)>, LexErr>(
            emit_command(mid, Terminator::Implicit).out,
        ));
        assert(flush_tokens(s, ts) == flush_tokens(flush_token(s, t), ts.skip(1)));
        assert(ts.skip(1).len() == 0);
        assert(flush_tokens(flush_token(s, t), ts.skip(1)) == flush_token(s, t));
    } else {
        assert(input[j] == (join_tokens(ts) + seq!['\n'])[j - i]);
        assert((t + seq![' '] + join_tokens(ts.skip(1)))[j - i] == ' ');
        assert(input[j] == ' ');
        assert(lex_step(x, ' ', j) == LexStep::Next(flush_token(x, t)));
        assert(lex_from(x, input, j) == lex_from(mid, input, j + 1));
        assert forall|j2: int| 0 <= j2 < ts.skip(1).len() implies plain_token(
            #[trigger] ts.skip(1)[j2],
        ) by {
            assert(ts.skip(1)[j2] == ts[j2 + 1]);
        }
        assert(input.subrange(j + 1, input.len() as int) =~= join_tokens(ts.skip(1)) + seq![
            '\n',
        ]) by {
            assert forall|m: int| 0 <= m < input.len() - (j + 1) implies input.subrange(
                j + 1,
                input.len() as int,
            )[m] == (join_tokens(ts.skip(1)) + seq!['\n'])[m] by {
                assert(input.subrange(j + 1, input.len() as int)[m] == input[j + 1 + m]);
                assert(input[j + 1 + m] == input.subrange(i, input.len() as int)[t.len() + 1 + m]);
                assert((join_tokens(ts) + seq!['\n'])[t.len() + 1 + m] == (join_tokens(ts.skip(1))
                    + seq!['\n'])[m]);
            }
        }
        lemma_command_tokens(mid, input, j + 1, ts.skip(1));
        assert(flush_tokens(s, ts) == flush_tokens(mid, ts.skip(1)));
    }
}

/// Law (single command): for every well-formed single-command line — one or
/// more whitespace-separated tokens of plain characters, closed by a line
/// break — tokenizing yields exactly one entry: the first token invokes, the
/// remaining tokens are its arguments in order, and the entry carries the
/// implicit terminator.
pub proof fn lemma_single_command(ts: Seq<Seq<char>>)
    requires
        ts.len() > 0,
        forall|j: int| 0 <= j < ts.len() ==> plain_token(#[trigger] ts[j]),
    ensures
        spec_tokenize(join_tokens(ts) + seq!['\n']) == Ok::<Seq<(CommandView, Terminator)>, LexErr>(
            seq![
                (
                    (CommandView {
                        invoking: ts[0],
                        args: ts.skip(1),
                        is_builtin: spec_is_builtin_name(ts[0]),
                    }),
                    Terminator::Implicit,
                ),
            ],
        ),
{
    let input = join_tokens(ts) + seq!['\n'];
    let s0 = init_state();
    assert(input.subrange(0, input.len() as int) =~= input);
    lemma_command_tokens(s0, input, 0, ts);
    let s1 = flush_token(s0, ts[0]);
    lemma_flush_tokens_args(s1, ts.skip(1));
    let fin = flush_tokens(s0, ts);
    assert(fin == flush_tokens(s1, ts.skip(1)));
    assert(fin.args =~= ts.skip(1));
    assert(emit_command(fin, Terminator::Implicit).out =~~= seq![
        (
            (CommandView {
                invoking: ts[0],
                args: ts.skip(1),
                is_builtin: spec_is_builtin_name(ts[0]),
            }),
            Terminator::Implicit,
        ),
    ]);
}

/// Tokenizing a run of quoted characters — anything but the closing quote
/// and the backslash — copies them, one by one, into the pending token.
proof fn lemma_quoted_run(s: LexState, input: Seq<char>, i: int, j: int)
    requires
        0 <= i <= j <= input.len(),
        forall|k: int| i <= k < j ==> input[k] != '"' && input[k] != '\\',
        s.mode == TokenizeMode::Quoted,
        !s.esc,
    ensures
        lex_from(s, input, i) == lex_from(
            LexState { buf: s.buf + input.subrange(i, j), ..s },
            input,
            j,
        ),
    decreases j - i,
{
    if i == j {
        assert(s.buf + input.subrange(i, j) =~= s.buf);
        assert((LexState { buf: s.buf + input.subrange(i, j), ..s }) =~~= s);
    } else {
        let c = input[i];
        let s2 = LexState { buf: s.buf.push(c), ..s };
        assert(lex_step(s, c, i) == LexStep::Next(s2));
        lemma_quoted_run(s2, input, i + 1, j);
        assert(s2.buf + input.subrange(i + 1, j) =~= s.buf + input.subrange(i, j));
        assert((LexState { buf: s2.buf + input.subrange(i + 1, j), ..s2 }) =~~= (LexState {
            buf: s.buf + input.subrange(i, j),
            ..s
        }));
    }
}

/// Escape decoding leaves a span without backslashes as it stands.
proof fn lemma_unescape_no_backslash(q: Seq<char>)
    requires
        forall|k: int| 0 <= k < q.len() ==> q[k] != '\\',
    ensures
        spec_unescape(q) == q,
    decreases q.len(),
{
    if q.len() == 0 {
        assert(spec_unescape(q) =~= q);
    } else {
        lemma_unescape_no_backslash(q.skip(1));
        assert(seq![q[0]] + q.skip(1) =~= q);
    }
}

/// Law (quoted argument): a quoted span is one argument, its characters —
/// whitespace and terminator characters included — preserved exactly as they
/// stand between the quotes. For any invoked name of plain characters and
/// any quoted content without quotes or backslashes, the line
/// `name SP " content " NL` tokenizes to one entry whose single argument is
/// the content, verbatim: quoted spans are not whitespace-split.
pub proof fn lemma_quoted_argument(t1: Seq<char>, q: Seq<char>)
    requires
        t1.len() > 0,
        forall|k: int| 0 <= k < t1.len() ==> spec_is_plain(t1[k]),
        forall|k: int| 0 <= k < q.len() ==> q[k] != '"' && q[k] != '\\',
    ensures
        spec_tokenize(t1 + seq![' ', '"'] + q + seq!['"', '\n']) == Ok::<
            Seq<(CommandView, Terminator)>,
            LexErr,
        >(
            seq![
                (
                    (CommandView {
                        invoking: t1,
                        args: seq![q],
                        is_builtin: spec_is_builtin_name(t1),
                    }),
                    Terminator::Implicit,
                ),
            ],
        ),
{
    let input = t1 + seq![' ', '"'] + q + seq!['"', '\n'];
    let p1 = t1.len() as int;
    let p2 = p1 + 2 + q.len();
    assert(input.len() == p2 + 2);
    assert(input.subrange(0, p1) =~= t1);
    assert(input[p1] == ' ');
    assert(input[p1 + 1] == '"');
    assert(input.subrange(p1 + 2, p2) =~= q);
    assert(input[p2] == '"');
    assert(input[p2 + 1] == '\n');

    let s0 = init_state();
    let a = LexState { buf: t1, ..s0 };
    assert forall|k: int| 0 <= k < p1 implies spec_is_plain(input[k]) by {
        assert(input[k] == t1[k]);
    }
    lemma_plain_run(s0, input, 0, p1);
    assert((LexState { buf: s0.buf + input.subrange(0, p1), ..s0 }) =~~= a);

    let b = flush_token(a, t1);
    assert(lex_step(a, input[p1], p1) == LexStep::Next(b));
    assert(lex_from(a, input, p1) == lex_from(b, input, p1 + 1));

    let c0 = LexState { mode: TokenizeMode::Quoted, esc: false, ..b };
    assert(lex_step(b, input[p1 + 1], p1 + 1) == LexStep::Next(c0));
    assert(lex_from(b, input, p1 + 1) == lex_from(c0, input, p1 + 2));

    let c1 = LexState { buf: q, ..c0 };
    assert forall|k: int| p1 + 2 <= k < p2 implies input[k] != '"' && input[k] != '\\' by {
        assert(input[k] == q[k - (p1 + 2)]);
    }
    lemma_quoted_run(c0, input, p1 + 2, p2);
    assert((LexState { buf: c0.buf + input.subrange(p1 + 2, p2), ..c0 }) =~~= c1);

    lemma_unescape_no_backslash(q);
    let d = flush_token(c1, q);
    assert(lex_step(c1, input[p2], p2) == LexStep::Next(d));
    assert(lex_from(c1, input, p2) == lex_from(d, input, p2 + 1));

    assert(lex_step(d, input[p2 + 1], p2 + 1) == handle_terminator(d, '\n', p2 + 1));
    assert(handle_terminator(d, '\n', p2 + 1) == LexStep::Stop(
        emit_command(d, Terminator::Implicit).out,
    ));
    assert(lex_from(d, input, p2 + 1) == Ok::<Seq<(CommandView, Terminator)>, LexErr>(
        emit_command(d, Terminator::Implicit).out,
    ));
    assert(emit_command(d, Terminator::Implicit).out =~~= seq![
        (
            (CommandView {
                invoking: t1,
                args: seq![q],
                is_builtin: spec_is_builtin_name(t1),
            }),
            Terminator::Implicit,
        ),
    ]);
}

/// The command a finished accumulation denotes, its builtin flag taken from
/// the registry lookup on the invoked name.
pub open spec fn cmd_with_lookup(c: CommandParams) -> CommandView {
    CommandView {
        invoking: c.invoking@,
        args: c.args@.map_values(|a: String| a@),
        is_builtin: spec_is_builtin_name(c.invoking@),
    }
}

/// The `LexState` that a set of tokenizer locals stands for.
pub open spec fn lex_abs(
    mode: TokenizeMode,
    esc: bool,
    buf: Vec<char>,
    has_invoking: bool,
    cur: CommandParams,
    out: Vec<(CommandParams, Terminator)>,
) -> LexState {
    LexState {
        mode: mode,
        esc: esc,
        buf: buf@,
        has_invoking: has_invoking,
        invoking: cur.invoking@,
        args: cur.args@.map_values(|a: String| a@),
        out: stmt_view(out@),
    }
}

/// Relies on `String: FromIterator<char>`: collecting characters yields the
/// string of exactly those characters, in order.
#[verifier::external_body]
fn chars_to_string(v: &Vec<char>) -> (s: String)
    ensures
        s@ == v@,
{
    v.iter().collect()
}

impl CommandParams {
    /// True of the characters that end a command: pipe, semicolon, line break.
    pub fn is_terminator(c: char) -> (r: bool)
        ensures
            r == spec_is_terminator(c),
    {
        c == '|' || c == ';' || c == '\n'
    }

    /// True of the whitespace that separates tokens: space, tab, carriage
    /// return.
    pub fn is_space(c: char) -> (r: bool)
        ensures
            r == spec_is_space(c),
    {
        c == ' ' || c == '\t' || c == '\r'
    }

    /// A fresh, empty command: no name, no arguments, not a builtin.
    pub fn clear_command() -> (c: CommandParams)
        ensures
            c@.invoking == Seq::<char>::empty(),
            c@.args == Seq::<Seq<char>>::empty(),
            c@.is_builtin == false,
    {
        let c = CommandParams { invoking: String::new(), args: Vec::new(), is_builtin: false };
        proof {
            assert(c@.args =~= Seq::<Seq<char>>::empty());
        }
        c
    }

    /// Turn the raw characters of a plain token into the argument string,
    /// emptying the buffer. Plain tokens carry no escapes: the characters are
    /// copied as they stand.
    pub fn parse_arg(raw: &mut Vec<char>) -> (s: String)
        ensures
            s@ == old(raw)@,
            final(raw)@ == Seq::<char>::empty(),
    {
        let s = chars_to_string(raw);
        raw.clear();
        proof {
            assert(raw@ =~= Seq::<char>::empty());
        }
        s
    }

    /// Decode one escape sequence of a quoted span: `raw[index]` is the
    /// backslash, and the decoded character — if the sequence is a recognized
    /// one — follows it.
    pub fn decode_escape(index: usize, raw: &Vec<char>) -> (r: Option<char>)
        requires
            index < raw@.len(),
            raw@[index as int] == '\\',
            index + 1 < raw@.len(),
        ensures
            (raw@[index + 1] == '"' || raw@[index + 1] == '\\') ==> r == Some(
                raw@[index + 1],
            ),
            !(raw@[index + 1] == '"' || raw@[index + 1] == '\\') ==> r is None,
    {
        let n = raw.len();
        proof {
            assert(index + 1 < n);
        }
        let next = raw[index + 1];
        if next == '"' || next == '\\' {
            Some(next)
        } else {
            None
        }
    }

    /// Turn the raw characters of a quoted span into the argument string,
    /// decoding escapes and emptying the buffer.
    pub fn parse_str(raw: &mut Vec<char>) -> (s: String)
        ensures
            s@ == spec_unescape(old(raw)@),
            final(raw)@ == Seq::<char>::empty(),
    {
        let mut decoded: Vec<char> = Vec::new();
        let mut index: usize = 0;
        proof {
            assert(raw@.skip(0) =~= raw@);
            assert(decoded@ + spec_unescape(raw@) =~= spec_unescape(raw@));
        }
        while index < raw.len()
            invariant
                index <= raw@.len(),
                raw@ == old(raw)@,
                spec_unescape(old(raw)@) == decoded@ + spec_unescape(
                    old(raw)@.skip(index as int),
                ),
            decreases raw@.len() - index,
        {
            let ghost rest = raw@.skip(index as int);
            let ghost built = decoded@;
            proof {
                assert(rest.len() == raw@.len() - index);
                assert(rest[0] == raw@[index as int]);
            }
            let current = raw[index];
            if current == '\\' && index + 1 < raw.len() {
                proof {
                    assert(rest[1] == raw@[index + 1]);
                    assert(rest.skip(2) =~= raw@.skip(index + 2));
                }
                match Self::decode_escape(index, raw) {
                    Some(c) => {
                        decoded.push(c);
                        proof {
                            assert(spec_unescape(rest) == seq![rest[1]] + spec_unescape(
                                rest.skip(2),
                            ));
                            assert(decoded@ =~= built + seq![rest[1]]);
                            assert(built + spec_unescape(rest) =~= decoded@ + spec_unescape(
                                rest.skip(2),
                            ));
                        }
                        index = index + 2;
                    },
                    None => {
                        decoded.push('\\');
                        let c2 = raw[index + 1];
                        decoded.push(c2);
                        proof {
                            assert(spec_unescape(rest) == seq![rest[0], rest[1]] + spec_unescape(
                                rest.skip(2),
                            ));
                            assert(decoded@ =~= built + seq![rest[0], rest[1]]);
                            assert(built + spec_unescape(rest) =~= decoded@ + spec_unescape(
                                rest.skip(2),
                            ));
                        }
                        index = index + 2;
                    },
                }
            } else {
                decoded.push(current);
                proof {
                    if current == '\\' {
                        assert(rest.len() == 1);
                        assert(spec_unescape(rest) == seq!['\\']);
                        assert(raw@.skip(index + 1) =~= Seq::<char>::empty());
                        assert(decoded@ =~= built + seq!['\\']);
                        assert(built + spec_unescape(rest) =~= decoded@ + spec_unescape(
                            raw@.skip(index + 1),
                        ));
                    } else {
                        assert(rest.skip(1) =~= raw@.skip(index + 1));
                        assert(spec_unescape(rest) == seq![rest[0]] + spec_unescape(rest.skip(1)));
                        assert(decoded@ =~= built + seq![rest[0]]);
                        assert(built + spec_unescape(rest) =~= decoded@ + spec_unescape(
                            rest.skip(1),
                        ));
                    }
                }
                index = index + 1;
            }
        }
        proof {
            assert(raw@.skip(index as int) =~= Seq::<char>::empty());
            assert(spec_unescape(old(raw)@) =~= decoded@);
        }
        let s = chars_to_string(&decoded);
        raw.clear();
        proof {
            assert(raw@ =~= Seq::<char>::empty());
        }
        s
    }

    /// Flush one completed token into the last unset field of the command
    /// being accumulated: the invoked name if none was set yet, else a new
    /// argument. Afterwards the tokenizer stands at a token boundary.
    fn flush_into(
        cur: &mut CommandParams,
        has_invoking: &mut bool,
        mode: &mut TokenizeMode,
        tok: String,
    )
        ensures
            *final(mode) == TokenizeMode::Arg,
            *final(has_invoking) == true,
            final(cur).is_builtin == old(cur).is_builtin,
            *old(has_invoking) == false ==> final(cur).invoking@ == tok@ && final(cur).args@
                == old(cur).args@,
            *old(has_invoking) == true ==> final(cur).invoking@ == old(cur).invoking@
                && final(cur).args@ == old(cur).args@.push(tok),
    {
        if !*has_invoking {
            cur.invoking = tok;
            *has_invoking = true;
        } else {
            cur.args.push(tok);
        }
        *mode = TokenizeMode::Arg;
    }

    /// Close the accumulated command: look its name up in the builtin
    /// registry, and append it to the statement with the given terminator.
    fn emit_into(out: &mut Vec<(CommandParams, Terminator)>, cur: CommandParams, t: Terminator)
        ensures
            stmt_view(final(out)@) == stmt_view(old(out)@).push((cmd_with_lookup(cur), t)),
    {
        let mut done = cur;
        done.is_builtin = crate::builtins::is_builtin_name(done.invoking.as_str());
        out.push((done, t));
        proof {
            assert(stmt_view(out@) =~~= stmt_view(old(out)@).push((cmd_with_lookup(cur), t)));
        }
    }

    /// A parse error of the given kind at the given character index, carrying
    /// the kind's message.
    fn make_err(kind: ParseErrKind, index: usize) -> (e: ParseErr)
        ensures
            e.kind == kind,
            e.index == index,
            e.message@ == spec_err_message(kind),
    {
        let message: String = match kind {
            ParseErrKind::InvalidChar => "quote or variable sigil in the middle of a token"
                .to_owned(),
            ParseErrKind::InvalidTerminator => "terminator handling reached an impossible state"
                .to_owned(),
            ParseErrKind::TerminatorTooEarly => "terminator with no command before it".to_owned(),
        };
        ParseErr { kind, message, index }
    }

    /// Tokenize one line of input into a statement: an ordered sequence of
    /// commands, each with the terminator that closed it. The result — the
    /// statement on success, the kind and index of the first error otherwise
    /// — is exactly what `spec_tokenize` yields on the input's characters.
    pub fn tokenize(input: &str) -> (r: Result<Vec<(CommandParams, Terminator)>, ParseErr>)
        ensures
            (match r {
                Ok(stmt) => spec_tokenize(input@) matches Ok(sv) && stmt_view(stmt@) == sv,
                Err(e) => spec_tokenize(input@) matches Err(le) && e.kind == le.kind && e.index
                    as int == le.index && e.message@ == spec_err_message(e.kind),
            }),
    {
        let len = input.unicode_len();
        let mut mode = TokenizeMode::Command;
        let mut esc = false;
        let mut buf: Vec<char> = Vec::new();
        let mut cur = Self::clear_command();
        let mut has_invoking = false;
        let mut out: Vec<(CommandParams, Terminator)> = Vec::new();
        let mut i: usize = 0;
        proof {
            assert(lex_abs(mode, esc, buf, has_invoking, cur, out) =~~= init_state());
        }
        while i < len
            invariant
                i <= len,
                len as nat == input@.len(),
                mode != TokenizeMode::Quoted ==> esc == false,
                spec_tokenize(input@) == lex_from(
                    lex_abs(mode, esc, buf, has_invoking, cur, out),
                    input@,
                    i as int,
                ),
            decreases len - i,
        {
            let ghost pre = lex_abs(mode, esc, buf, has_invoking, cur, out);
            let c = input.get_char(i);
            match mode {
                TokenizeMode::Quoted => {
                    if esc {
                        buf.push(c);
                        esc = false;
                        proof {
                            assert(lex_abs(mode, esc, buf, has_invoking, cur, out) =~~= (LexState {
                                buf: pre.buf.push(c),
                                esc: false,
                                ..pre
                            }));
                        }
                    } else if c == '"' {
                        let tok = Self::parse_str(&mut buf);
                        Self::flush_into(&mut cur, &mut has_invoking, &mut mode, tok);
                        proof {
                            assert(lex_abs(mode, esc, buf, has_invoking, cur, out) =~~= flush_token(
                                pre,
                                spec_unescape(pre.buf),
                            ));
                        }
                    } else if c == '\\' {
                        buf.push('\\');
                        esc = true;
                        proof {
                            assert(lex_abs(mode, esc, buf, has_invoking, cur, out) =~~= (LexState {
                                buf: pre.buf.push('\\'),
                                esc: true,
                                ..pre
                            }));
                        }
                    } else {
                        buf.push(c);
                        proof {
                            assert(lex_abs(mode, esc, buf, has_invoking, cur, out) =~~= (LexState {
                                buf: pre.buf.push(c),
                                ..pre
                            }));
                        }
                    }
                },
                TokenizeMode::Var => {
                    if Self::is_space(c) {
                        let tok = Self::get_env(&mut buf);
                        Self::flush_into(&mut cur, &mut has_invoking, &mut mode, tok);
                        proof {
                            assert(lex_abs(mode, esc, buf, has_invoking, cur, out) =~~= flush_token(
                                pre,
                                Seq::empty(),
                            ));
                        }
                    } else if Self::is_terminator(c) {
                        let tok = Self::get_env(&mut buf);
                        Self::flush_into(&mut cur, &mut has_invoking, &mut mode, tok);
                        let ghost mid = flush_token(pre, Seq::empty());
                        proof {
                            assert(lex_abs(mode, esc, buf, has_invoking, cur, out) =~~= mid);
                        }
                        let ghost pre_out = stmt_view(out@);
                        let ghost curg = cur;
                        if c == '|' {
                            Self::emit_into(&mut out, cur, Terminator::Pipe);
                            cur = Self::clear_command();
                            has_invoking = false;
                            mode = TokenizeMode::Command;
                            proof {
                                assert(cmd_with_lookup(curg) =~~= cur_command(mid));
                                assert(lex_abs(mode, esc, buf, has_invoking, cur, out)
                                    =~~= emit_command(mid, Terminator::Pipe));
                            }
                        } else if c == ';' {
                            Self::emit_into(&mut out, cur, Terminator::EndCmd);
                            cur = Self::clear_command();
                            has_invoking = false;
                            mode = TokenizeMode::Command;
                            proof {
                                assert(cmd_with_lookup(curg) =~~= cur_command(mid));
                                assert(lex_abs(mode, esc, buf, has_invoking, cur, out)
                                    =~~= emit_command(mid, Terminator::EndCmd));
                            }
                        } else {
                            Self::emit_into(&mut out, cur, Terminator::Implicit);
                            proof {
                                assert(cmd_with_lookup(curg) =~~= cur_command(mid));
                                assert(stmt_view(out@) =~~= emit_command(
                                    mid,
                                    Terminator::Implicit,
                                ).out);
                            }
                            return Ok(out);
                        }
                    } else {
                        buf.push(c);
                        proof {
                            assert(lex_abs(mode, esc, buf, has_invoking, cur, out) =~~= (LexState {
                                buf: pre.buf.push(c),
                                ..pre
                            }));
                        }
                    }
                },
                _ => {
                    if Self::is_space(c) {
                        if buf.len() > 0 {
                            let tok = Self::parse_arg(&mut buf);
                            Self::flush_into(&mut cur, &mut has_invoking, &mut mode, tok);
                            proof {
                                assert(lex_abs(mode, esc, buf, has_invoking, cur, out)
                                    =~~= flush_token(pre, pre.buf));
                            }
                        }
                    } else if c == '"' {
                        if buf.len() > 0 {
                            proof {
                                assert(lex_from(pre, input@, i as int) matches Err(le) && le.kind
                                    == ParseErrKind::InvalidChar && le.index == i as int);
                            }
                            return Err(Self::make_err(ParseErrKind::InvalidChar, i));
                        }
                        mode = TokenizeMode::Quoted;
                        esc = false;
                        proof {
                            assert(lex_abs(mode, esc, buf, has_invoking, cur, out) =~~= (LexState {
                                mode: TokenizeMode::Quoted,
                                esc: false,
                                ..pre
                            }));
                        }
                    } else if c == '$' {
                        if buf.len() > 0 {
                            proof {
                                assert(lex_from(pre, input@, i as int) matches Err(le) && le.kind
                                    == ParseErrKind::InvalidChar && le.index == i as int);
                            }
                            return Err(Self::make_err(ParseErrKind::InvalidChar, i));
                        }
                        mode = TokenizeMode::Var;
                        proof {
                            assert(lex_abs(mode, esc, buf, has_invoking, cur, out) =~~= (LexState {
                                mode: TokenizeMode::Var,
                                ..pre
                            }));
                        }
                    } else if Self::is_terminator(c) {
                        if buf.len() > 0 {
                            let tok = Self::parse_arg(&mut buf);
                            Self::flush_into(&mut cur, &mut has_invoking, &mut mode, tok);
                        }
                        let ghost mid = if pre.buf.len() == 0 {
                            pre
                        } else {
                            flush_token(pre, pre.buf)
                        };
                        proof {
                            assert(lex_abs(mode, esc, buf, has_invoking, cur, out) =~~= mid);
                        }
                        if !has_invoking {
                            proof {
                                assert(lex_from(pre, input@, i as int) matches Err(le) && le.kind
                                    == ParseErrKind::TerminatorTooEarly && le.index == i as int);
                            }
                            return Err(Self::make_err(ParseErrKind::TerminatorTooEarly, i));
                        }
                        let ghost curg = cur;
                        if c == '|' {
                            Self::emit_into(&mut out, cur, Terminator::Pipe);
                            cur = Self::clear_command();
                            has_invoking = false;
                            mode = TokenizeMode::Command;
                            proof {
                                assert(cmd_with_lookup(curg) =~~= cur_command(mid));
                                assert(lex_abs(mode, esc, buf, has_invoking, cur, out)
                                    =~~= emit_command(mid, Terminator::Pipe));
                            }
                        } else if c == ';' {
                            Self::emit_into(&mut out, cur, Terminator::EndCmd);
                            cur = Self::clear_command();
                            has_invoking = false;
                            mode = TokenizeMode::Command;
                            proof {
                                assert(cmd_with_lookup(curg) =~~= cur_command(mid));
                                assert(lex_abs(mode, esc, buf, has_invoking, cur, out)
                                    =~~= emit_command(mid, Terminator::EndCmd));
                            }
                        } else {
                            Self::emit_into(&mut out, cur, Terminator::Implicit);
                            proof {
                                assert(cmd_with_lookup(curg) =~~= cur_command(mid));
                                assert(stmt_view(out@) =~~= emit_command(
                                    mid,
                                    Terminator::Implicit,
                                ).out);
                            }
                            return Ok(out);
                        }
                    } else {
                        buf.push(c);
                        proof {
                            assert(lex_abs(mode, esc, buf, has_invoking, cur, out) =~~= (LexState {
                                buf: pre.buf.push(c),
                                ..pre
                            }));
                        }
                    }
                },
            }
            i = i + 1;
        }
        // End of input without a line break: close what is pending.
        let ghost end = lex_abs(mode, esc, buf, has_invoking, cur, out);
        match mode {
            TokenizeMode::Quoted => {
                let tok = Self::parse_str(&mut buf);
                Self::flush_into(&mut cur, &mut has_invoking, &mut mode, tok);
                esc = false;
                proof {
                    assert(lex_abs(mode, esc, buf, has_invoking, cur, out) =~~= flush_token(
                        end,
                        spec_unescape(end.buf),
                    ));
                }
            },
            TokenizeMode::Var => {
                let tok = Self::get_env(&mut buf);
                Self::flush_into(&mut cur, &mut has_invoking, &mut mode, tok);
                proof {
                    assert(lex_abs(mode, esc, buf, has_invoking, cur, out) =~~= flush_token(
                        end,
                        Seq::empty(),
                    ));
                }
            },
            _ => {
                if buf.len() > 0 {
                    let tok = Self::parse_arg(&mut buf);
                    Self::flush_into(&mut cur, &mut has_invoking, &mut mode, tok);
                    proof {
                        assert(lex_abs(mode, esc, buf, has_invoking, cur, out) =~~= flush_token(
                            end,
                            end.buf,
                        ));
                    }
                }
            },
        }
        let ghost closed = (match end.mode {
            TokenizeMode::Quoted => flush_token(end, spec_unescape(end.buf)),
            TokenizeMode::Var => flush_token(end, Seq::empty()),
            _ => if end.buf.len() == 0 {
                end
            } else {
                flush_token(end, end.buf)
            },
        });
        proof {
            assert(lex_abs(mode, esc, buf, has_invoking, cur, out) =~~= closed);
        }
        if has_invoking {
            let ghost curg = cur;
            Self::emit_into(&mut out, cur, Terminator::Implicit);
            proof {
                assert(cmd_with_lookup(curg) =~~= cur_command(closed));
                assert(stmt_view(out@) =~~= emit_command(closed, Terminator::Implicit).out);
            }
        }
        let ghost full = (if closed.has_invoking {
            emit_command(closed, Terminator::Implicit).out
        } else {
            closed.out
        });
        proof {
            assert(stmt_view(out@) =~~= full);
        }
        // A statement may not end with a dangling pipe: a trailing `|` is
        // read as `;`.
        let n = out.len();
        if n > 0 {
            let rewrite = (if let Terminator::Pipe = out[n - 1].1 {
                true
            } else {
                false
            });
            if rewrite {
                if let Some(p) = out.pop() {
                    out.push((p.0, Terminator::EndCmd));
                    proof {
                        assert(stmt_view(out@) =~~= full.update(
                            full.len() - 1,
                            (full.last().0, Terminator::EndCmd),
                        ));
                    }
                }
            }
        }
        proof {
            assert(stmt_view(out@) =~~= lex_finish(end));
        }
        Ok(out)
    }

    /// The value a variable reference resolves to. Resolution against an
    /// environment is an external collaborator's responsibility; this core
    /// resolves every reference to the empty string and empties the buffered
    /// name.
    pub fn get_env(raw: &mut Vec<char>) -> (s: String)
        ensures
            s@ == Seq::<char>::empty(),
            final(raw)@ == Seq::<char>::empty(),
    {
        raw.clear();
        proof {
            assert(raw@ =~= Seq::<char>::empty());
        }
        String::new()
    }
}

} // verus!
