//! Scripts: a text is cut into top-level forms, and each form is a
//! command.
use std::collections::VecDeque;
use vstd::prelude::*;
use vstd::string::StringSliceAdditionalSpecFns;
use crate::repr::Module;
use crate::text::parser::str_eq;
use crate::text::sexpr::copy_bytes;
use crate::text::token::{
    spec_deep_tokens, spec_significant, spec_tokens, tokenize_script_without_ws, TextToken, Token,
    TokenView, TokenizeError,
};

verus! {

/// A script: commands in order.
#[derive(Debug)]
pub struct Script {
    pub commands: Vec<Command>,
}

#[derive(Debug)]
pub enum Command {
    Module(Module),
    Action(Action),
    Assert(Assertion),
    Meta(Meta),
}

#[derive(Debug, Copy, Clone, PartialEq, Eq, Structural)]
pub enum Action {
    Invoke,
    Get,
}

/// The assertions of a script, by what they expect.
#[derive(Debug, Copy, Clone, PartialEq, Eq, Structural)]
pub enum Assertion {
    Return,
    Trap,
    Malformed,
    Invalid,
    Unlinkable,
    Exhaustion,
}

#[derive(Debug)]
pub enum Meta {
    Script { name: Option<String>, subscript: Script },
    Input { name: Option<String>, val: String },
    Output { name: Option<String>, val: String },
}

/// Why tokens are no forms, or a form is no command.
#[derive(Debug, Copy, Clone, PartialEq, Eq, Structural)]
pub enum ParseError {
    UnknownError,
    FailedParsingCommand,
    UnexpectedEof,
    UnexpectedToken,
}

/// A form: one token, or a list of forms between parentheses.
#[derive(Debug)]
pub enum Tree {
    Single(Token),
    List(VecDeque<Tree>),
}

/// A form as a value.
pub enum TreeView {
    Single(TokenView),
    List(Seq<TreeView>),
}

impl Tree {
    /// The form as a value.
    pub open spec fn deep(self) -> TreeView
        decreases self,
    {
        match self {
            Tree::Single(t) => TreeView::Single(t.deep()),
            Tree::List(items) => TreeView::List(
                Seq::new(
                    items@.len(),
                    |i: int|
                        if 0 <= i < items@.len() {
                            items@[i].deep()
                        } else {
                            arbitrary()
                        },
                ),
            ),
        }
    }
}

/// Forms as values.
pub open spec fn spec_deep_trees(s: Seq<Tree>) -> Seq<TreeView> {
    Seq::new(s.len(), |i: int| s[i].deep())
}

/// A result with the forms `acc` in front.
pub open spec fn spec_trees_after(acc: Seq<TreeView>, r: Result<(Seq<TreeView>, int), ParseError>) -> Result<
    (Seq<TreeView>, int),
    ParseError,
> {
    match r {
        Ok((s, q)) => Ok((acc + s, q)),
        Err(e) => Err(e),
    }
}

/// The form at `pos` and the position after it: a token, or `(`, forms,
/// and `)`.
pub open spec fn spec_tree(ts: Seq<TokenView>, pos: int) -> Result<(TreeView, int), ParseError>
    decreases ts.len() - pos, 0nat,
{
    if pos < 0 || pos >= ts.len() {
        Err(ParseError::UnexpectedEof)
    } else if ts[pos] is RightParen {
        Err(ParseError::UnexpectedToken)
    } else if ts[pos] is LeftParen {
        match spec_list(ts, pos + 1) {
            Err(e) => Err(e),
            Ok((items, q)) => Ok((TreeView::List(items), q)),
        }
    } else {
        Ok((TreeView::Single(ts[pos]), pos + 1))
    }
}

/// The forms of a list from `pos` on, up to the `)` that closes it, and
/// the position after that. A list that the tokens end in is an error.
pub open spec fn spec_list(ts: Seq<TokenView>, pos: int) -> Result<(Seq<TreeView>, int), ParseError>
    decreases ts.len() - pos, 1nat,
{
    if pos < 0 || pos >= ts.len() {
        Err(ParseError::UnexpectedToken)
    } else if ts[pos] is RightParen {
        Ok((Seq::empty(), pos + 1))
    } else {
        match spec_tree(ts, pos) {
            Err(e) => Err(e),
            Ok((x, q)) => if q <= pos || q > ts.len() {
                Err(ParseError::UnknownError)
            } else {
                spec_trees_after(seq![x], spec_list(ts, q))
            },
        }
    }
}

/// The forms from `pos` to the end of the tokens.
pub open spec fn spec_trees(ts: Seq<TokenView>, pos: int) -> Result<Seq<TreeView>, ParseError>
    decreases ts.len() - pos,
{
    if pos < 0 || pos >= ts.len() {
        Ok(Seq::empty())
    } else {
        match spec_tree(ts, pos) {
            Err(e) => Err(e),
            Ok((x, q)) => if q <= pos || q > ts.len() {
                Err(ParseError::UnknownError)
            } else {
                match spec_trees(ts, q) {
                    Err(e) => Err(e),
                    Ok(rest) => Ok(seq![x] + rest),
                }
            },
        }
    }
}

/// A copy of a token.
pub fn copy_token(t: &Token) -> (r: Token)
    ensures
        r.deep() == t.deep(),
{
    match t {
        Token::LeftParen => Token::LeftParen,
        Token::RightParen => Token::RightParen,
        Token::Atom(s) => Token::Atom(s.clone()),
        Token::Name(s) => Token::Name(s.clone()),
        Token::Text(b) => Token::Text(TextToken(copy_bytes(&b.0))),
        Token::Nat(n) => Token::Nat(*n),
        Token::Int(i) => Token::Int(*i),
        Token::Float(s) => Token::Float(s.clone()),
        Token::Equal => Token::Equal,
        Token::Comment(s) => Token::Comment(s.clone()),
        Token::Whitespace => Token::Whitespace,
    }
}

/// Reads the form at `pos` and returns it with the position after it.
pub fn tree(tokens: &Vec<Token>, pos: usize) -> (r: Result<(Tree, usize), ParseError>)
    ensures
        match spec_tree(spec_deep_tokens(tokens@), pos as int) {
            Ok((v, next)) => r matches Ok((x, q)) && x.deep() == v && q == next && pos < q
                <= tokens@.len(),
            Err(e) => r matches Err(x) && x == e,
        },
    decreases tokens@.len() - pos, 0nat,
{
    if pos >= tokens.len() {
        return Err(ParseError::UnexpectedEof);
    }
    let ghost ts = spec_deep_tokens(tokens@);
    assert(ts[pos as int] == tokens@[pos as int].deep());
    match &tokens[pos] {
        Token::RightParen => Err(ParseError::UnexpectedToken),
        Token::LeftParen => {
            let (inner, q) = list(tokens, pos + 1)?;
            let t = Tree::List(inner);
            assert(t.deep()->List_0 =~= spec_deep_trees(t->List_0@));
            Ok((t, q))
        },
        a => Ok((Tree::Single(copy_token(a)), pos + 1)),
    }
}

/// Reads the forms of a list up to the `)` that closes it.
pub fn list(tokens: &Vec<Token>, pos: usize) -> (r: Result<(VecDeque<Tree>, usize), ParseError>)
    ensures
        match spec_list(spec_deep_tokens(tokens@), pos as int) {
            Ok((v, next)) => r matches Ok((x, q)) && spec_deep_trees(x@) == v && q == next && pos
                < q <= tokens@.len(),
            Err(e) => r matches Err(x) && x == e,
        },
    decreases tokens@.len() - pos, 1nat,
{
    let mut inner: VecDeque<Tree> = VecDeque::new();
    let mut at: usize = pos;
    let ghost ts = spec_deep_tokens(tokens@);
    proof {
        assert(spec_deep_trees(inner@) =~= Seq::<TreeView>::empty());
        if let Ok((s, q)) = spec_list(ts, pos as int) {
            assert(Seq::<TreeView>::empty() + s =~= s);
        }
    }
    loop
        invariant
            pos <= at,
            ts == spec_deep_tokens(tokens@),
            spec_list(ts, pos as int) == spec_trees_after(
                spec_deep_trees(inner@),
                spec_list(ts, at as int),
            ),
        decreases tokens@.len() - at,
    {
        if at >= tokens.len() {
            return Err(ParseError::UnexpectedToken);
        }
        assert(ts[at as int] == tokens@[at as int].deep());
        let ghost acc = spec_deep_trees(inner@);
        if let Token::RightParen = &tokens[at] {
            proof {
                assert(acc + Seq::<TreeView>::empty() =~= acc);
            }
            return Ok((inner, at + 1));
        }
        let (t, q) = tree(tokens, at)?;
        proof {
            if let Ok((rest, e)) = spec_list(ts, q as int) {
                assert(acc + (seq![t.deep()] + rest) =~= acc.push(t.deep()) + rest);
            }
        }
        inner.push_back(t);
        proof {
            assert(spec_deep_trees(inner@) =~= acc.push(t.deep()));
        }
        at = q;
    }
}

/// Cuts tokens into forms.
pub fn tokens_to_tree(tokens: Vec<Token>) -> (r: Result<Vec<Tree>, ParseError>)
    ensures
        match spec_trees(spec_deep_tokens(tokens@), 0) {
            Ok(v) => r matches Ok(x) && spec_deep_trees(x@) == v,
            Err(e) => r matches Err(x) && x == e,
        },
{
    let mut trees: Vec<Tree> = Vec::new();
    let mut at: usize = 0;
    let ghost ts = spec_deep_tokens(tokens@);
    proof {
        assert(spec_deep_trees(trees@) =~= Seq::<TreeView>::empty());
        if let Ok(s) = spec_trees(ts, 0) {
            assert(Seq::<TreeView>::empty() + s =~= s);
        }
    }
    while at < tokens.len()
        invariant
            ts == spec_deep_tokens(tokens@),
            spec_trees(ts, 0) == (match spec_trees(ts, at as int) {
                Ok(s) => Ok::<Seq<TreeView>, ParseError>(spec_deep_trees(trees@) + s),
                Err(e) => Err::<Seq<TreeView>, ParseError>(e),
            }),
        decreases tokens@.len() - at,
    {
        let ghost acc = spec_deep_trees(trees@);
        let (t, q) = tree(&tokens, at)?;
        proof {
            if let Ok(rest) = spec_trees(ts, q as int) {
                assert(acc + (seq![t.deep()] + rest) =~= acc.push(t.deep()) + rest);
            }
        }
        trees.push(t);
        proof {
            assert(spec_deep_trees(trees@) =~= acc.push(t.deep()));
        }
        at = q;
    }
    proof {
        assert(spec_deep_trees(trees@) + Seq::<TreeView>::empty() =~= spec_deep_trees(trees@));
    }
    Ok(trees)
}

/// The name and the arguments of the command that a form is: the form is
/// a list, and its first item is an atom.
pub open spec fn spec_command(tree: TreeView) -> Result<(Seq<char>, Seq<TreeView>), ParseError> {
    match tree {
        TreeView::Single(_) => Err(ParseError::UnexpectedToken),
        TreeView::List(items) => if items.len() == 0 {
            Err(ParseError::UnexpectedEof)
        } else {
            match items[0] {
                TreeView::Single(TokenView::Atom(cmd)) => Ok((cmd, items.drop_first())),
                _ => Err(ParseError::UnexpectedToken),
            }
        },
    }
}

/// Splits a form into the name of a command and its arguments.
pub fn to_command(tree: Tree) -> (r: Result<(String, VecDeque<Tree>), ParseError>)
    ensures
        match spec_command(tree.deep()) {
            Ok((cmd, args)) => r matches Ok((c, a)) && c@ == cmd && spec_deep_trees(a@) == args,
            Err(e) => r matches Err(x) && x == e,
        },
{
    let ghost whole = tree.deep();
    let mut items = match tree {
        Tree::List(items) => items,
        Tree::Single(_) => {
            return Err(ParseError::UnexpectedToken);
        },
    };
    proof {
        assert(whole->List_0 =~= spec_deep_trees(items@));
    }
    let ghost before = items@;
    let cmd = match items.pop_front() {
        Some(c) => c,
        None => {
            return Err(ParseError::UnexpectedEof);
        },
    };
    proof {
        assert(spec_deep_trees(items@) =~= spec_deep_trees(before).drop_first());
    }
    match cmd {
        Tree::Single(Token::Atom(cmd)) => Ok((cmd, items)),
        _ => Err(ParseError::UnexpectedToken),
    }
}

/// What a script has said so far.
#[derive(Debug)]
pub struct Context {
    pub registered_modules: Vec<(String, Module)>,
    pub last_module: Option<Module>,
    pub errors: Vec<ScriptError>,
}

impl Context {
    pub fn new() -> (c: Self)
        ensures
            c.registered_modules@.len() == 0,
            c.last_module is None,
            c.errors@.len() == 0,
    {
        Self { registered_modules: Vec::new(), last_module: None, errors: Vec::new() }
    }
}

/// Why a script could not be run.
#[derive(Debug, Copy, Clone, PartialEq, Eq, Structural)]
pub enum ScriptError {
    /// The text does not cut into tokens.
    Tokenizing(TokenizeError),
    /// The tokens are no forms, or a form is no command.
    Parsing(ParseError),
    /// A form begins with a word that names no command.
    UnknownCommand,
}

/// The commands of a script.
#[derive(Debug, Copy, Clone, PartialEq, Eq, Structural)]
pub enum CommandKind {
    AssertInvalid,
    Module,
    AssertReturn,
    Invoke,
    AssertTrap,
    AssertMalformed,
    AssertExhaustion,
    AssertUnlinkable,
    Register,
}

/// The command that a word names.
pub open spec fn spec_command_kind(name: Seq<char>) -> Option<CommandKind> {
    if name == "assert_invalid"@ {
        Some(CommandKind::AssertInvalid)
    } else if name == "module"@ {
        Some(CommandKind::Module)
    } else if name == "assert_return"@ {
        Some(CommandKind::AssertReturn)
    } else if name == "invoke"@ {
        Some(CommandKind::Invoke)
    } else if name == "assert_trap"@ {
        Some(CommandKind::AssertTrap)
    } else if name == "assert_malformed"@ {
        Some(CommandKind::AssertMalformed)
    } else if name == "assert_exhaustion"@ {
        Some(CommandKind::AssertExhaustion)
    } else if name == "assert_unlinkable"@ {
        Some(CommandKind::AssertUnlinkable)
    } else if name == "register"@ {
        Some(CommandKind::Register)
    } else {
        None
    }
}

pub fn command_kind(name: &str) -> (r: Option<CommandKind>)
    ensures
        r == spec_command_kind(name@),
{
    if str_eq(name, "assert_invalid") {
        Some(CommandKind::AssertInvalid)
    } else if str_eq(name, "module") {
        Some(CommandKind::Module)
    } else if str_eq(name, "assert_return") {
        Some(CommandKind::AssertReturn)
    } else if str_eq(name, "invoke") {
        Some(CommandKind::Invoke)
    } else if str_eq(name, "assert_trap") {
        Some(CommandKind::AssertTrap)
    } else if str_eq(name, "assert_malformed") {
        Some(CommandKind::AssertMalformed)
    } else if str_eq(name, "assert_exhaustion") {
        Some(CommandKind::AssertExhaustion)
    } else if str_eq(name, "assert_unlinkable") {
        Some(CommandKind::AssertUnlinkable)
    } else if str_eq(name, "register") {
        Some(CommandKind::Register)
    } else {
        None
    }
}

/// The kinds of the commands that the forms from `k` on are, or the first
/// error.
pub open spec fn spec_commands(trees: Seq<TreeView>, k: int) -> Result<Seq<CommandKind>, ScriptError>
    decreases trees.len() - k,
{
    if k < 0 || k >= trees.len() {
        Ok(Seq::empty())
    } else {
        match spec_command(trees[k]) {
            Err(e) => Err(ScriptError::Parsing(e)),
            Ok((name, _)) => match spec_command_kind(name) {
                None => Err(ScriptError::UnknownCommand),
                Some(kind) => match spec_commands(trees, k + 1) {
                    Err(e) => Err(e),
                    Ok(rest) => Ok(seq![kind] + rest),
                },
            },
        }
    }
}

/// The commands of a script, in order: the text is cut into tokens and
/// the tokens into forms, and each form names a command.
pub open spec fn spec_script(input: Seq<u8>) -> Result<Seq<CommandKind>, ScriptError> {
    match spec_tokens(input, 0) {
        Err(e) => Err(ScriptError::Tokenizing(e)),
        Ok(ts) => match spec_trees(spec_significant(ts), 0) {
            Err(e) => Err(ScriptError::Parsing(e)),
            Ok(trees) => spec_commands(trees, 0),
        },
    }
}

/// Reads the commands of a script.
pub fn read_script(input: &str) -> (r: Result<Vec<(CommandKind, VecDeque<Tree>)>, ScriptError>)
    ensures
        match spec_script(input.spec_bytes()) {
            Ok(kinds) => r matches Ok(v) && Seq::new(v@.len(), |i: int| v@[i].0) == kinds,
            Err(e) => r matches Err(x) && x == e,
        },
{
    let tokens = match tokenize_script_without_ws(input) {
        Ok(t) => t,
        Err(e) => {
            return Err(ScriptError::Tokenizing(e));
        },
    };
    let mut trees = match tokens_to_tree(tokens) {
        Ok(t) => t,
        Err(e) => {
            return Err(ScriptError::Parsing(e));
        },
    };
    let ghost all = spec_deep_trees(trees@);
    let n: usize = trees.len();
    let mut out: Vec<(CommandKind, VecDeque<Tree>)> = Vec::new();
    let mut rest: Vec<Tree> = Vec::new();
    // the forms are taken from the end, so that each can be moved out
    while trees.len() > 0
        invariant
            trees@.len() <= n,
            spec_deep_trees(trees@) == all.take(trees@.len() as int),
            all.len() == n,
            rest@.len() == n - trees@.len(),
            forall|j: int|
                0 <= j < rest@.len() ==> (#[trigger] rest@[j]).deep() == all[n - 1 - j],
        decreases trees@.len(),
    {
        let ghost k = trees@.len() - 1;
        let ghost before = trees@;
        let t = trees.pop().unwrap();
        proof {
            assert(t.deep() == spec_deep_trees(before)[k]);
            assert(spec_deep_trees(trees@) =~= all.take(trees@.len() as int)) by {
                assert forall|j: int| 0 <= j < trees@.len() implies spec_deep_trees(trees@)[j]
                    == all.take(trees@.len() as int)[j] by {
                    assert(trees@[j] == before[j]);
                    assert(spec_deep_trees(before)[j] == all[j]);
                }
            }
        }
        rest.push(t);
    }
    let ghost mut kinds: Seq<CommandKind> = Seq::empty();
    proof {
        if let Ok(s) = spec_commands(all, 0) {
            assert(kinds + s =~= s);
        }
        assert(Seq::new(out@.len(), |i: int| out@[i].0) =~= kinds);
    }
    while rest.len() > 0
        invariant
            rest@.len() <= n,
            all.len() == n,
            forall|j: int|
                0 <= j < rest@.len() ==> (#[trigger] rest@[j]).deep() == all[n - 1 - j],
            Seq::new(out@.len(), |i: int| out@[i].0) == kinds,
            spec_script(input.spec_bytes()) == spec_commands(all, 0),
            spec_commands(all, 0) == (match spec_commands(all, n - rest@.len()) {
                Ok(s) => Ok::<Seq<CommandKind>, ScriptError>(kinds + s),
                Err(e) => Err::<Seq<CommandKind>, ScriptError>(e),
            }),
        decreases rest@.len(),
    {
        let ghost k = n - rest@.len();
        let ghost before = rest@;
        let t = rest.pop().unwrap();
        proof {
            assert(t == before[before.len() - 1]);
            assert(t.deep() == all[k]);
            assert forall|j: int| 0 <= j < rest@.len() implies (#[trigger] rest@[j]).deep() == all[n
                - 1 - j] by {
                assert(rest@[j] == before[j]);
            }
        }
        let (cmd, args) = match to_command(t) {
            Ok(c) => c,
            Err(e) => {
                return Err(ScriptError::Parsing(e));
            },
        };
        let kind = match command_kind(cmd.as_str()) {
            Some(k) => k,
            None => {
                return Err(ScriptError::UnknownCommand);
            },
        };
        proof {
            if let Ok(s) = spec_commands(all, k + 1) {
                assert(kinds + (seq![kind] + s) =~= kinds.push(kind) + s);
            }
            kinds = kinds.push(kind);
        }
        out.push((kind, args));
        assert(Seq::new(out@.len(), |i: int| out@[i].0) =~= kinds);
    }
    proof {
        assert(kinds + Seq::<CommandKind>::empty() =~= kinds);
    }
    Ok(out)
}

pub fn command_assert_invalid(ctx: &mut Context, args: VecDeque<Tree>) -> (r: Result<(), ScriptError>)
    ensures
        r is Ok,
        *final(ctx) == *old(ctx),
{
    Ok(())
}

pub fn command_module(ctx: &mut Context, args: VecDeque<Tree>) -> (r: Result<(), ScriptError>)
    ensures
        r is Ok,
        *final(ctx) == *old(ctx),
{
    Ok(())
}

pub fn command_assert_return(ctx: &mut Context, args: VecDeque<Tree>) -> (r: Result<(), ScriptError>)
    ensures
        r is Ok,
        *final(ctx) == *old(ctx),
{
    Ok(())
}

pub fn command_invoke(ctx: &mut Context, args: VecDeque<Tree>) -> (r: Result<(), ScriptError>)
    ensures
        r is Ok,
        *final(ctx) == *old(ctx),
{
    Ok(())
}

pub fn command_assert_malformed(ctx: &mut Context, args: VecDeque<Tree>) -> (r: Result<(), ScriptError>)
    ensures
        r is Ok,
        *final(ctx) == *old(ctx),
{
    Ok(())
}

pub fn command_assert_trap(ctx: &mut Context, args: VecDeque<Tree>) -> (r: Result<(), ScriptError>)
    ensures
        r is Ok,
        *final(ctx) == *old(ctx),
{
    Ok(())
}

pub fn command_register(ctx: &mut Context, args: VecDeque<Tree>) -> (r: Result<(), ScriptError>)
    ensures
        r is Ok,
        *final(ctx) == *old(ctx),
{
    Ok(())
}

pub fn command_assert_exhaustion(ctx: &mut Context, args: VecDeque<Tree>) -> (r: Result<(), ScriptError>)
    ensures
        r is Ok,
        *final(ctx) == *old(ctx),
{
    Ok(())
}

pub fn command_assert_unlinkable(ctx: &mut Context, args: VecDeque<Tree>) -> (r: Result<(), ScriptError>)
    ensures
        r is Ok,
        *final(ctx) == *old(ctx),
{
    Ok(())
}

/// Runs a script: every command is read and handed to its handler. The
/// handlers take note of nothing; what a script asserts is checked by the
/// embedder, which can call functions of the host.
pub fn run_script(input: &str) -> (r: Result<(), ScriptError>)
    ensures
        match spec_script(input.spec_bytes()) {
            Ok(_) => r is Ok,
            Err(e) => r == Err::<(), ScriptError>(e),
        },
{
    let mut later = read_script(input)?;
    let mut commands: Vec<(CommandKind, VecDeque<Tree>)> = Vec::new();
    while later.len() > 0
        decreases later@.len(),
    {
        let c = later.pop().unwrap();
        commands.push(c);
    }
    let mut ctx = Context::new();
    while commands.len() > 0
        decreases commands@.len(),
    {
        let (kind, args) = commands.pop().unwrap();
        let _ = match kind {
            CommandKind::AssertInvalid => command_assert_invalid(&mut ctx, args),
            CommandKind::Module => command_module(&mut ctx, args),
            CommandKind::AssertReturn => command_assert_return(&mut ctx, args),
            CommandKind::Invoke => command_invoke(&mut ctx, args),
            CommandKind::AssertTrap => command_assert_trap(&mut ctx, args),
            CommandKind::AssertMalformed => command_assert_malformed(&mut ctx, args),
            CommandKind::AssertExhaustion => command_assert_exhaustion(&mut ctx, args),
            CommandKind::AssertUnlinkable => command_assert_unlinkable(&mut ctx, args),
            CommandKind::Register => command_register(&mut ctx, args),
        };
    }
    Ok(())
}

} // verus!
