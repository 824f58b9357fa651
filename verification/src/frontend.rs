//! A tiny C-like language front end: a lexer, a recursive-descent parser and
//! a code generator that emits assembly text for the assembler to consume.
//! The language knows one type (`int`), function definitions without
//! parameters, function calls, and integer constants.

use vstd::prelude::*;

use crate::text::dec_val;
use crate::text::i64_to_string;
use crate::text::int_str;
use crate::text::is_digit;
use crate::text::is_digit_char;
use crate::text::is_ws;
use crate::text::is_ws_char;
use crate::text::lemma_dec_val_prefix;
use crate::text::str_eq;

verus! {

broadcast use vstd::seq::group_seq_axioms, vstd::std_specs::vec::group_vec_axioms;

/// One lexical token of the source language.
#[derive(Debug, PartialEq, Clone)]
pub enum Token {
    Integer(i64),
    Id(String),
    Operator(char),
    LeftParen,
    RightParen,
    LeftBracket,
    RightBracket,
    Semicolon,
    INT,
}

/// The mathematical value of a token: strings become character sequences.
#[verifier::ext_equal]
pub ghost enum TokenModel {
    Integer(int),
    Id(Seq<char>),
    Operator(char),
    LeftParen,
    RightParen,
    LeftBracket,
    RightBracket,
    Semicolon,
    KwInt,
}

pub open spec fn token_model(t: Token) -> TokenModel {
    match t {
        Token::Integer(v) => TokenModel::Integer(v as int),
        Token::Id(s) => TokenModel::Id(s@),
        Token::Operator(c) => TokenModel::Operator(c),
        Token::LeftParen => TokenModel::LeftParen,
        Token::RightParen => TokenModel::RightParen,
        Token::LeftBracket => TokenModel::LeftBracket,
        Token::RightBracket => TokenModel::RightBracket,
        Token::Semicolon => TokenModel::Semicolon,
        Token::INT => TokenModel::KwInt,
    }
}

pub open spec fn models(ts: Seq<Token>) -> Seq<TokenModel> {
    ts.map_values(|t: Token| token_model(t))
}

/// A character that may start an identifier.
pub open spec fn is_ident_start(c: char) -> bool {
    ('a' <= c && c <= 'z') || ('A' <= c && c <= 'Z') || c == '_'
}

/// A character that may continue an identifier.
pub open spec fn is_ident_char(c: char) -> bool {
    is_ident_start(c) || is_digit(c)
}

/// Where the identifier starting at `i` ends.
pub open spec fn ident_end(s: Seq<char>, i: int) -> int
    decreases s.len() - i,
{
    if i < 0 || i >= s.len() || !is_ident_char(s[i]) {
        i
    } else {
        ident_end(s, i + 1)
    }
}

/// Where the digit run starting at `i` ends.
pub open spec fn digit_end(s: Seq<char>, i: int) -> int
    decreases s.len() - i,
{
    if i < 0 || i >= s.len() || !is_digit(s[i]) {
        i
    } else {
        digit_end(s, i + 1)
    }
}

pub proof fn lemma_ident_end_bounds(s: Seq<char>, i: int)
    requires
        0 <= i <= s.len(),
    ensures
        i <= ident_end(s, i) <= s.len(),
        i < s.len() && is_ident_char(s[i]) ==> ident_end(s, i) > i,
    decreases s.len() - i,
{
    if i < s.len() && is_ident_char(s[i]) {
        lemma_ident_end_bounds(s, i + 1);
    }
}

pub proof fn lemma_digit_end_bounds(s: Seq<char>, i: int)
    requires
        0 <= i <= s.len(),
    ensures
        i <= digit_end(s, i) <= s.len(),
        i < s.len() && is_digit(s[i]) ==> digit_end(s, i) > i,
    decreases s.len() - i,
{
    if i < s.len() && is_digit(s[i]) {
        lemma_digit_end_bounds(s, i + 1);
    }
}

/// A maximal identifier run ends exactly where a non-identifier character or
/// the end of the input begins.
pub proof fn lemma_ident_end_is(s: Seq<char>, i: int, j: int)
    requires
        0 <= i <= j <= s.len(),
        forall|k: int| i <= k < j ==> is_ident_char(s[k]),
        j == s.len() || !is_ident_char(s[j]),
    ensures
        ident_end(s, i) == j,
    decreases j - i,
{
    if i < j {
        lemma_ident_end_is(s, i + 1, j);
    }
}

/// A maximal digit run ends exactly where a non-digit or the end of the
/// input begins.
pub proof fn lemma_digit_end_is(s: Seq<char>, i: int, j: int)
    requires
        0 <= i <= j <= s.len(),
        forall|k: int| i <= k < j ==> is_digit(s[k]),
        j == s.len() || !is_digit(s[j]),
    ensures
        digit_end(s, i) == j,
    decreases j - i,
{
    if i < j {
        lemma_digit_end_is(s, i + 1, j);
    }
}

/// The tokens the source denotes from position `i` on, or nothing when an
/// unknown character appears or an integer constant exceeds the 64-bit
/// signed range.
pub open spec fn lex_from(s: Seq<char>, i: int) -> Option<Seq<TokenModel>>
    decreases s.len() - i,
        via lex_from_decreases
{
    if i < 0 || i >= s.len() {
        Some(Seq::empty())
    } else {
        let c = s[i];
        if is_ws(c) {
            lex_from(s, i + 1)
        } else if c == '(' {
            lex_cons(TokenModel::LeftParen, lex_from(s, i + 1))
        } else if c == ')' {
            lex_cons(TokenModel::RightParen, lex_from(s, i + 1))
        } else if c == '{' {
            lex_cons(TokenModel::LeftBracket, lex_from(s, i + 1))
        } else if c == '}' {
            lex_cons(TokenModel::RightBracket, lex_from(s, i + 1))
        } else if c == ';' {
            lex_cons(TokenModel::Semicolon, lex_from(s, i + 1))
        } else if c == '+' || c == '-' || c == '*' || c == '/' {
            lex_cons(TokenModel::Operator(c), lex_from(s, i + 1))
        } else if is_digit(c) {
            let j = digit_end(s, i);
            let v = dec_val(s.subrange(i, j));
            if v > 0x7fffffffffffffff {
                None
            } else {
                lex_cons(TokenModel::Integer(v), lex_from(s, j))
            }
        } else if is_ident_start(c) {
            let j = ident_end(s, i);
            let word = s.subrange(i, j);
            if word == "int"@ {
                lex_cons(TokenModel::KwInt, lex_from(s, j))
            } else {
                lex_cons(TokenModel::Id(word), lex_from(s, j))
            }
        } else {
            None
        }
    }
}

/// One more token in front of a lexing result, errors passing through.
pub open spec fn lex_cons(t: TokenModel, rest: Option<Seq<TokenModel>>) -> Option<Seq<TokenModel>> {
    match rest {
        Some(ts) => Some(seq![t] + ts),
        None => None,
    }
}

#[via_fn]
proof fn lex_from_decreases(s: Seq<char>, i: int) {
    if 0 <= i < s.len() {
        if is_digit(s[i]) {
            lemma_digit_end_bounds(s, i);
        }
        if is_ident_start(s[i]) {
            lemma_ident_end_bounds(s, i);
        }
    }
}

/// Whether `c` may start an identifier.
fn ident_start_char(c: char) -> (r: bool)
    ensures
        r == is_ident_start(c),
{
    ('a' <= c && c <= 'z') || ('A' <= c && c <= 'Z') || c == '_'
}

/// Whether `c` may continue an identifier.
fn ident_char(c: char) -> (r: bool)
    ensures
        r == is_ident_char(c),
{
    ident_start_char(c) || is_digit_char(c)
}

/// Turn source text into tokens; an unknown character or an integer constant
/// past the 64-bit signed range is an error.
pub fn lexer(input: &String) -> (r: Result<Vec<Token>, String>)
    ensures
        (match lex_from(input@, 0) {
            Some(ts) => (match r {
                Ok(v) => models(v@) == ts,
                Err(_) => false,
            }),
            None => r is Err,
        }),
{
    let s = input.as_str();
    let n = s.unicode_len();
    let mut out: Vec<Token> = Vec::new();
    let mut i: usize = 0;
    proof {
        assert(models(out@) + lex_from(s@, 0)->0 =~= lex_from(s@, 0)->0);
    }
    while i < n
        invariant
            n == s@.len(),
            s@ == input@,
            i <= n,
            (match lex_from(s@, i as int) {
                Some(ts) => lex_from(s@, 0) == Some(models(out@) + ts),
                None => lex_from(s@, 0) == None::<Seq<TokenModel>>,
            }),
        decreases n - i,
    {
        let c = s.get_char(i);
        let ghost pre = out@;
        if is_ws_char(c) {
            i = i + 1;
        } else if c == '(' {
            out.push(Token::LeftParen);
            proof {
                assert(out@.drop_last() =~= pre);
                if lex_from(s@, (i + 1) as int) is Some {
                    lemma_models_push(pre, out@, lex_from(s@, (i + 1) as int)->0);
                }
            }
            i = i + 1;
        } else if c == ')' {
            out.push(Token::RightParen);
            proof {
                assert(out@.drop_last() =~= pre);
                if lex_from(s@, (i + 1) as int) is Some {
                    lemma_models_push(pre, out@, lex_from(s@, (i + 1) as int)->0);
                }
            }
            i = i + 1;
        } else if c == '{' {
            out.push(Token::LeftBracket);
            proof {
                assert(out@.drop_last() =~= pre);
                if lex_from(s@, (i + 1) as int) is Some {
                    lemma_models_push(pre, out@, lex_from(s@, (i + 1) as int)->0);
                }
            }
            i = i + 1;
        } else if c == '}' {
            out.push(Token::RightBracket);
            proof {
                assert(out@.drop_last() =~= pre);
                if lex_from(s@, (i + 1) as int) is Some {
                    lemma_models_push(pre, out@, lex_from(s@, (i + 1) as int)->0);
                }
            }
            i = i + 1;
        } else if c == ';' {
            out.push(Token::Semicolon);
            proof {
                assert(out@.drop_last() =~= pre);
                if lex_from(s@, (i + 1) as int) is Some {
                    lemma_models_push(pre, out@, lex_from(s@, (i + 1) as int)->0);
                }
            }
            i = i + 1;
        } else if c == '+' || c == '-' || c == '*' || c == '/' {
            out.push(Token::Operator(c));
            proof {
                assert(out@.drop_last() =~= pre);
                if lex_from(s@, (i + 1) as int) is Some {
                    lemma_models_push(pre, out@, lex_from(s@, (i + 1) as int)->0);
                }
            }
            i = i + 1;
        } else if is_digit_char(c) {
            let start = i;
            let mut j = i + 1;
            while j < n
                invariant
                    n == s@.len(),
                    start < j <= n,
                    forall|k: int| start <= k < j ==> is_digit(s@[k]),
                ensures
                    n == s@.len(),
                    start < j <= n,
                    forall|k: int| start <= k < j ==> is_digit(s@[k]),
                    j == n || !is_digit(s@[j as int]),
                decreases n - j,
            {
                if !is_digit_char(s.get_char(j)) {
                    break ;
                }
                j = j + 1;
            }
            proof {
                lemma_digit_end_is(s@, start as int, j as int);
            }
            let ghost digits = s@.subrange(start as int, j as int);
            let mut acc: i64 = 0;
            let mut k: usize = start;
            while k < j
                invariant
                    n == s@.len(),
                    start <= k <= j <= n,
                    digits == s@.subrange(start as int, j as int),
                    forall|l: int| start <= l < j ==> is_digit(s@[l]),
                    0 <= acc,
                    acc == dec_val(s@.subrange(start as int, k as int)),
                ensures
                    n == s@.len(),
                    start <= k <= j <= n,
                    digits == s@.subrange(start as int, j as int),
                    k == j ==> acc == dec_val(digits),
                    k < j ==> dec_val(digits) > 0x7fffffffffffffff,
                decreases j - k,
            {
                let c2 = s.get_char(k);
                let d = ((c2 as u32) - ('0' as u32)) as i64;
                proof {
                    let pre2 = s@.subrange(start as int, (k + 1) as int);
                    assert(pre2.drop_last() =~= s@.subrange(start as int, k as int));
                    if acc > (0x7fffffffffffffff - d) / 10 {
                        assert(dec_val(pre2) == acc * 10 + d);
                        assert(forall|l: int| 0 <= l < digits.len() ==> is_digit(
                            #[trigger] digits[l],
                        ));
                        assert(digits.subrange(0, (k + 1 - start) as int) =~= pre2);
                        lemma_dec_val_prefix(digits, (k + 1 - start) as int);
                    }
                }
                if acc > (0x7fffffffffffffff - d) / 10 {
                    break ;
                }
                acc = acc * 10 + d;
                k = k + 1;
            }
            if k < j {
                return Err("integer constant out of range".to_owned());
            }
            out.push(Token::Integer(acc));
            proof {
                assert(out@.drop_last() =~= pre);
                if lex_from(s@, j as int) is Some {
                    lemma_models_push(pre, out@, lex_from(s@, j as int)->0);
                }
            }
            i = j;
        } else if ident_start_char(c) {
            let start = i;
            let mut j = i + 1;
            while j < n
                invariant
                    n == s@.len(),
                    start < j <= n,
                    forall|k: int| start <= k < j ==> is_ident_char(s@[k]),
                ensures
                    n == s@.len(),
                    start < j <= n,
                    forall|k: int| start <= k < j ==> is_ident_char(s@[k]),
                    j == n || !is_ident_char(s@[j as int]),
                decreases n - j,
            {
                if !ident_char(s.get_char(j)) {
                    break ;
                }
                j = j + 1;
            }
            proof {
                lemma_ident_end_is(s@, start as int, j as int);
            }
            let word = s.substring_char(start, j);
            if str_eq(word, "int") {
                out.push(Token::INT);
            } else {
                out.push(Token::Id(word.to_owned()));
            }
            proof {
                assert(out@.drop_last() =~= pre);
                if lex_from(s@, j as int) is Some {
                    lemma_models_push(pre, out@, lex_from(s@, j as int)->0);
                }
            }
            i = j;
        } else {
            return Err("unknown character".to_owned());
        }
    }
    proof {
        assert(models(out@) + Seq::<TokenModel>::empty() =~= models(out@));
    }
    Ok(out)
}

/// Appending one token appends its model, and the appended model list
/// composes with any remainder exactly as one token in front of it would.
proof fn lemma_models_push(pre: Seq<Token>, ts: Seq<Token>, rest: Seq<TokenModel>)
    requires
        ts.len() == pre.len() + 1,
        ts.drop_last() == pre,
    ensures
        models(ts) + rest == models(pre) + (seq![token_model(ts.last())] + rest),
{
    assert(models(ts) =~= models(pre).push(token_model(ts.last())));
    assert(models(ts) + rest =~= models(pre) + (seq![token_model(ts.last())] + rest));
}

/// The one primitive type of the language.
#[derive(Debug, PartialEq, Clone)]
pub enum PrimType {
    Int,
}

/// A node of the abstract syntax tree.
#[derive(Debug, PartialEq)]
pub enum Node {
    Program { body: Vec<Node> },
    FuncDef { name: String, return_type: PrimType, body: Vec<Node> },
    FuncCall { name: String, args: Vec<Node> },
    Expr { value: Vec<Node> },
    IntConst { n: i64 },
}

/// The token sequence a node renders back to; the parser is proved to
/// return only nodes that render back to exactly its input.
pub open spec fn node_toks(n: Node) -> Seq<TokenModel>
    decreases n,
{
    match n {
        Node::Program { body } => nodes_toks(body@),
        Node::FuncDef { name, return_type: _, body } => seq![
            TokenModel::KwInt,
            TokenModel::Id(name@),
            TokenModel::LeftParen,
            TokenModel::RightParen,
            TokenModel::LeftBracket,
        ] + nodes_toks(body@) + seq![TokenModel::RightBracket],
        Node::FuncCall { name, args } => seq![TokenModel::Id(name@), TokenModel::LeftParen]
            + nodes_toks(args@) + seq![TokenModel::RightParen, TokenModel::Semicolon],
        Node::Expr { value } => nodes_toks(value@),
        Node::IntConst { n } => seq![TokenModel::Integer(n as int)],
    }
}

pub open spec fn nodes_toks(ns: Seq<Node>) -> Seq<TokenModel>
    decreases ns,
{
    if ns.len() == 0 {
        Seq::empty()
    } else {
        node_toks(ns[0]) + nodes_toks(ns.drop_first())
    }
}

/// A statement the parser can produce: an integer constant, or a call whose
/// arguments are themselves statements.
pub open spec fn stmt_ok(n: Node) -> bool
    decreases n,
{
    match n {
        Node::IntConst { n: _ } => true,
        Node::FuncCall { name: _, args } => stmts_ok(args@),
        _ => false,
    }
}

pub open spec fn stmts_ok(ns: Seq<Node>) -> bool
    decreases ns,
{
    if ns.len() == 0 {
        true
    } else {
        stmt_ok(ns[0]) && stmts_ok(ns.drop_first())
    }
}

/// A function definition whose body is statements.
pub open spec fn funcdef_ok(n: Node) -> bool {
    match n {
        Node::FuncDef { name: _, return_type: _, body } => stmts_ok(body@),
        _ => false,
    }
}

pub open spec fn funcdefs_ok(ns: Seq<Node>) -> bool
    decreases ns,
{
    if ns.len() == 0 {
        true
    } else {
        funcdef_ok(ns[0]) && funcdefs_ok(ns.drop_first())
    }
}

/// The shape of every tree the parser returns: a program of function
/// definitions.
pub open spec fn program_ok(n: Node) -> bool {
    match n {
        Node::Program { body } => funcdefs_ok(body@),
        _ => false,
    }
}

proof fn lemma_nodes_toks_push(ns: Seq<Node>, nd: Node)
    ensures
        nodes_toks(ns.push(nd)) == nodes_toks(ns) + node_toks(nd),
    decreases ns.len(),
{
    if ns.len() == 0 {
        assert(ns.push(nd)[0] == nd);
        assert(ns.push(nd).drop_first() =~= Seq::<Node>::empty());
        assert(nodes_toks(ns.push(nd).drop_first()) =~= Seq::<TokenModel>::empty());
        assert(nodes_toks(ns.push(nd)) == node_toks(nd) + nodes_toks(ns.push(nd).drop_first()));
        assert(nodes_toks(ns.push(nd)) =~= nodes_toks(ns) + node_toks(nd));
    } else {
        assert(ns.push(nd)[0] == ns[0]);
        assert(ns.push(nd).drop_first() =~= ns.drop_first().push(nd));
        lemma_nodes_toks_push(ns.drop_first(), nd);
        assert(nodes_toks(ns.drop_first().push(nd)) == nodes_toks(ns.drop_first()) + node_toks(
            nd,
        ));
        assert(nodes_toks(ns.push(nd)) == node_toks(ns[0]) + nodes_toks(
            ns.drop_first().push(nd),
        ));
        assert(nodes_toks(ns) == node_toks(ns[0]) + nodes_toks(ns.drop_first()));
        assert(nodes_toks(ns.push(nd)) =~= nodes_toks(ns) + node_toks(nd));
    }
}

proof fn lemma_stmts_ok_push(ns: Seq<Node>, nd: Node)
    ensures
        stmts_ok(ns.push(nd)) == (stmts_ok(ns) && stmt_ok(nd)),
    decreases ns.len(),
{
    if ns.len() == 0 {
        assert(ns.push(nd)[0] == nd);
        assert(ns.push(nd).drop_first() =~= Seq::<Node>::empty());
        assert(stmts_ok(ns.push(nd).drop_first()));
        assert(stmts_ok(ns.push(nd)) == (stmt_ok(nd) && stmts_ok(ns.push(nd).drop_first())));
    } else {
        assert(ns.push(nd)[0] == ns[0]);
        assert(ns.push(nd).drop_first() =~= ns.drop_first().push(nd));
        lemma_stmts_ok_push(ns.drop_first(), nd);
        assert(stmts_ok(ns.drop_first().push(nd)) == (stmts_ok(ns.drop_first()) && stmt_ok(nd)));
        assert(stmts_ok(ns.push(nd)) == (stmt_ok(ns[0]) && stmts_ok(ns.drop_first().push(nd))));
        assert(stmts_ok(ns) == (stmt_ok(ns[0]) && stmts_ok(ns.drop_first())));
    }
}

proof fn lemma_funcdefs_ok_push(ns: Seq<Node>, nd: Node)
    ensures
        funcdefs_ok(ns.push(nd)) == (funcdefs_ok(ns) && funcdef_ok(nd)),
    decreases ns.len(),
{
    if ns.len() == 0 {
        assert(ns.push(nd)[0] == nd);
        assert(ns.push(nd).drop_first() =~= Seq::<Node>::empty());
        assert(funcdefs_ok(ns.push(nd).drop_first()));
        assert(funcdefs_ok(ns.push(nd)) == (funcdef_ok(nd) && funcdefs_ok(
            ns.push(nd).drop_first(),
        )));
    } else {
        assert(ns.push(nd)[0] == ns[0]);
        assert(ns.push(nd).drop_first() =~= ns.drop_first().push(nd));
        lemma_funcdefs_ok_push(ns.drop_first(), nd);
        assert(funcdefs_ok(ns.drop_first().push(nd)) == (funcdefs_ok(ns.drop_first())
            && funcdef_ok(nd)));
        assert(funcdefs_ok(ns.push(nd)) == (funcdef_ok(ns[0]) && funcdefs_ok(
            ns.drop_first().push(nd),
        )));
        assert(funcdefs_ok(ns) == (funcdef_ok(ns[0]) && funcdefs_ok(ns.drop_first())));
    }
}

proof fn lemma_models_concat(s: Seq<Token>, a: int, b: int, c: int)
    requires
        0 <= a <= b <= c <= s.len(),
    ensures
        models(s.subrange(a, c)) == models(s.subrange(a, b)) + models(s.subrange(b, c)),
{
    assert(models(s.subrange(a, c)) =~= models(s.subrange(a, b)) + models(s.subrange(b, c)));
}

/// Where the statement starting at `pos` ends: an integer constant is one
/// token; a call is a name, a parenthesized run of statements, and a
/// semicolon. `None` when no statement starts there.
pub open spec fn stmt_end(ts: Seq<TokenModel>, pos: int) -> Option<int>
    decreases ts.len() - pos, 0int,
{
    if pos < 0 || pos >= ts.len() {
        None
    } else if ts[pos] is Integer {
        Some(pos + 1)
    } else if ts[pos] is Id {
        if pos + 1 < ts.len() && ts[pos + 1] is LeftParen {
            match scan_end(ts, pos + 2) {
                Some(close) => if close + 1 < ts.len() && ts[close + 1] is Semicolon {
                    Some(close + 2)
                } else {
                    None
                },
                None => None,
            }
        } else {
            None
        }
    } else {
        None
    }
}

/// The position of the right parenthesis that closes a run of statements
/// starting at `pos`, or `None` when the run is ill-formed or never closed.
/// A statement's reported end is clamped into `(pos, len]` for the benefit
/// of the termination measure; the clamp never fires, as
/// `lemma_ends_in_bounds` shows.
pub open spec fn scan_end(ts: Seq<TokenModel>, pos: int) -> Option<int>
    decreases ts.len() - pos, 1int,
{
    if pos < 0 || pos >= ts.len() {
        None
    } else if ts[pos] is RightParen {
        Some(pos)
    } else {
        match stmt_end(ts, pos) {
            Some(q0) => {
                let q = if q0 <= pos {
                    pos + 1
                } else if q0 > ts.len() {
                    ts.len() as int
                } else {
                    q0
                };
                scan_end(ts, q)
            },
            None => None,
        }
    }
}

/// A reported statement end always lies past its start and within the
/// input, so the clamp inside `scan_end` never alters it.
pub proof fn lemma_stmt_end_in_bounds(ts: Seq<TokenModel>, pos: int)
    ensures
        (match stmt_end(ts, pos) {
            Some(q) => pos < q <= ts.len(),
            None => true,
        }),
    decreases ts.len() - pos, 0int,
{
    if 0 <= pos < ts.len() && ts[pos] is Id && pos + 1 < ts.len() && ts[pos + 1] is LeftParen {
        lemma_scan_end_in_bounds(ts, pos + 2);
    }
}

/// A reported closing parenthesis lies within the input, at or past the
/// start of the run.
pub proof fn lemma_scan_end_in_bounds(ts: Seq<TokenModel>, pos: int)
    ensures
        (match scan_end(ts, pos) {
            Some(c) => pos <= c < ts.len() && ts[c] is RightParen,
            None => true,
        }),
    decreases ts.len() - pos, 1int,
{
    if 0 <= pos < ts.len() && !(ts[pos] is RightParen) {
        lemma_stmt_end_in_bounds(ts, pos);
        match stmt_end(ts, pos) {
            Some(q0) => {
                lemma_scan_end_in_bounds(ts, q0);
            },
            None => {},
        }
    }
}

/// Where the function definition starting at `pos` ends: the five fixed
/// tokens `int name ( ) {`, a run of statements, and the closing bracket.
pub open spec fn funcdef_end(ts: Seq<TokenModel>, pos: int) -> Option<int> {
    if 0 <= pos && pos + 5 <= ts.len() && ts[pos] is KwInt && ts[pos + 1] is Id && ts[pos
        + 2] is LeftParen && ts[pos + 3] is RightParen && ts[pos + 4] is LeftBracket {
        match body_end(ts, pos + 5) {
            Some(close) => Some(close + 1),
            None => None,
        }
    } else {
        None
    }
}

/// The position of the right bracket that closes a function body starting
/// at `pos`, with the same clamp as `scan_end`.
pub open spec fn body_end(ts: Seq<TokenModel>, pos: int) -> Option<int>
    decreases ts.len() - pos, 1int,
{
    if pos < 0 || pos >= ts.len() {
        None
    } else if ts[pos] is RightBracket {
        Some(pos)
    } else {
        match stmt_end(ts, pos) {
            Some(q0) => {
                let q = if q0 <= pos {
                    pos + 1
                } else if q0 > ts.len() {
                    ts.len() as int
                } else {
                    q0
                };
                body_end(ts, q)
            },
            None => None,
        }
    }
}

/// A reported closing bracket lies within the input, at or past the start
/// of the body.
pub proof fn lemma_body_end_in_bounds(ts: Seq<TokenModel>, pos: int)
    ensures
        (match body_end(ts, pos) {
            Some(c) => pos <= c < ts.len() && ts[c] is RightBracket,
            None => true,
        }),
    decreases ts.len() - pos,
{
    if 0 <= pos < ts.len() && !(ts[pos] is RightBracket) {
        lemma_stmt_end_in_bounds(ts, pos);
        match stmt_end(ts, pos) {
            Some(q0) => {
                lemma_body_end_in_bounds(ts, q0);
            },
            None => {},
        }
    }
}

/// The whole token sequence from `pos` on is a run of function definitions.
pub open spec fn program_accepted_from(ts: Seq<TokenModel>, pos: int) -> bool
    decreases ts.len() - pos,
{
    if pos >= ts.len() {
        pos == ts.len()
    } else {
        match funcdef_end(ts, pos) {
            Some(q0) => {
                let q = if q0 <= pos {
                    pos + 1
                } else if q0 > ts.len() {
                    ts.len() as int
                } else {
                    q0
                };
                program_accepted_from(ts, q)
            },
            None => false,
        }
    }
}

/// The grammar of the language: a program is a run of function definitions.
pub open spec fn program_accepted(ts: Seq<TokenModel>) -> bool {
    program_accepted_from(ts, 0)
}

/// Parse one statement starting at `pos`: an integer constant, or a call
/// `name ( args ) ;` whose arguments are statements.
fn walk(tokens: &Vec<Token>, pos: usize) -> (r: Result<(Node, usize), String>)
    requires
        pos < tokens@.len(),
    ensures
        (match r {
            Ok(p) => pos < p.1 <= tokens@.len() && stmt_ok(p.0) && node_toks(p.0) == models(
                tokens@.subrange(pos as int, p.1 as int),
            ) && stmt_end(models(tokens@), pos as int) == Some(p.1 as int),
            Err(_) => stmt_end(models(tokens@), pos as int) is None,
        }),
    decreases tokens@.len() - pos,
{
    let ghost bigm = models(tokens@);
    proof {
        assert(forall|j: int| 0 <= j < tokens@.len() ==> bigm[j] == token_model(
            #[trigger] tokens@[j],
        ));
    }
    let n = tokens.len();
    match &tokens[pos] {
        Token::Integer(v) => {
            let node = Node::IntConst { n: *v };
            proof {
                assert(node_toks(node) =~= models(
                    tokens@.subrange(pos as int, (pos + 1) as int),
                ));
                assert(stmt_end(bigm, pos as int) == Some((pos + 1) as int));
            }
            Ok((node, pos + 1))
        },
        Token::Id(s) => {
            let name = s.clone();
            if pos + 1 >= n {
                proof {
                    assert(stmt_end(bigm, pos as int) is None);
                }
                return Err("left parenthesis must follow a call name".to_owned());
            }
            match &tokens[pos + 1] {
                Token::LeftParen => {},
                _ => {
                    proof {
                        assert(stmt_end(bigm, pos as int) is None);
                    }
                    return Err("left parenthesis must follow a call name".to_owned());
                },
            }
            let mut args: Vec<Node> = Vec::new();
            let mut p: usize = pos + 2;
            proof {
                assert(tokens@.subrange((pos + 2) as int, (pos + 2) as int)
                    =~= Seq::<Token>::empty());
                assert(nodes_toks(args@) =~= models(
                    tokens@.subrange((pos + 2) as int, (pos + 2) as int),
                ));
            }
            loop
                invariant
                    n == tokens@.len(),
                    pos < n,
                    pos + 2 <= p <= n,
                    bigm == models(tokens@),
                    (forall|j: int| 0 <= j < tokens@.len() ==> bigm[j] == token_model(
                        #[trigger] tokens@[j],
                    )),
                    token_model(tokens@[pos as int]) == TokenModel::Id(name@),
                    tokens@[pos + 1] == Token::LeftParen,
                    stmts_ok(args@),
                    nodes_toks(args@) == models(tokens@.subrange((pos + 2) as int, p as int)),
                    scan_end(bigm, (pos + 2) as int) == scan_end(bigm, p as int),
                ensures
                    n == tokens@.len(),
                    pos + 2 <= p < n,
                    token_model(tokens@[pos as int]) == TokenModel::Id(name@),
                    tokens@[pos + 1] == Token::LeftParen,
                    tokens@[p as int] == Token::RightParen,
                    stmts_ok(args@),
                    nodes_toks(args@) == models(tokens@.subrange((pos + 2) as int, p as int)),
                    scan_end(bigm, (pos + 2) as int) == scan_end(bigm, p as int),
                decreases n - p,
            {
                if p >= n {
                    proof {
                        assert(scan_end(bigm, p as int) is None);
                        assert(stmt_end(bigm, pos as int) is None);
                    }
                    return Err("call arguments never closed".to_owned());
                }
                let at_close = match &tokens[p] {
                    Token::RightParen => true,
                    _ => false,
                };
                if at_close {
                    break ;
                }
                match walk(tokens, p) {
                    Ok((nd, p2)) => {
                        proof {
                            lemma_nodes_toks_push(args@, nd);
                            lemma_stmts_ok_push(args@, nd);
                            lemma_models_concat(tokens@, (pos + 2) as int, p as int, p2 as int);
                            assert(scan_end(bigm, p as int) == scan_end(bigm, p2 as int));
                        }
                        args.push(nd);
                        p = p2;
                    },
                    Err(e) => {
                        proof {
                            assert(scan_end(bigm, p as int) is None);
                            assert(stmt_end(bigm, pos as int) is None);
                        }
                        return Err(e);
                    },
                }
            }
            proof {
                assert(scan_end(bigm, p as int) == Some(p as int));
            }
            if p + 1 >= n {
                proof {
                    assert(stmt_end(bigm, pos as int) is None);
                }
                return Err("semicolon must follow a call".to_owned());
            }
            match &tokens[p + 1] {
                Token::Semicolon => {},
                _ => {
                    proof {
                        assert(stmt_end(bigm, pos as int) is None);
                    }
                    return Err("semicolon must follow a call".to_owned());
                },
            }
            let node = Node::FuncCall { name, args };
            proof {
                assert(node_toks(node) =~= models(tokens@.subrange(pos as int, (p + 2) as int)));
                assert(stmt_end(bigm, pos as int) == Some((p + 2) as int));
            }
            Ok((node, p + 2))
        },
        _ => {
            proof {
                assert(stmt_end(bigm, pos as int) is None);
            }
            Err("this token cannot start a statement".to_owned())
        },
    }
}

/// Parse one function definition `int name ( ) { stmts }` starting at `pos`.
fn parse_func_def(tokens: &Vec<Token>, pos: usize) -> (r: Result<(Node, usize), String>)
    requires
        pos < tokens@.len(),
    ensures
        (match r {
            Ok(p) => pos < p.1 <= tokens@.len() && funcdef_ok(p.0) && node_toks(p.0) == models(
                tokens@.subrange(pos as int, p.1 as int),
            ) && funcdef_end(models(tokens@), pos as int) == Some(p.1 as int),
            Err(_) => funcdef_end(models(tokens@), pos as int) is None,
        }),
    decreases tokens@.len() - pos,
{
    let ghost bigm = models(tokens@);
    proof {
        assert(forall|j: int| 0 <= j < tokens@.len() ==> bigm[j] == token_model(
            #[trigger] tokens@[j],
        ));
    }
    let n = tokens.len();
    match &tokens[pos] {
        Token::INT => {},
        _ => {
            return Err("function definition must start with a type specifier".to_owned());
        },
    }
    let rem = n - pos;
    if rem < 2 {
        return Err("no token after the type name".to_owned());
    }
    let name = match &tokens[pos + 1] {
        Token::Id(s) => s.clone(),
        _ => {
            return Err("a name must follow the return type".to_owned());
        },
    };
    if rem < 4 {
        return Err("function definition must have an empty argument list".to_owned());
    }
    match &tokens[pos + 2] {
        Token::LeftParen => {},
        _ => {
            return Err("function definition must have an empty argument list".to_owned());
        },
    }
    match &tokens[pos + 3] {
        Token::RightParen => {},
        _ => {
            return Err("function definition must have an empty argument list".to_owned());
        },
    }
    if rem < 6 {
        return Err("a left bracket must follow the function name".to_owned());
    }
    match &tokens[pos + 4] {
        Token::LeftBracket => {},
        _ => {
            return Err("a left bracket must follow the function name".to_owned());
        },
    }
    let mut body: Vec<Node> = Vec::new();
    let mut p: usize = pos + 5;
    proof {
        assert(tokens@.subrange((pos + 5) as int, (pos + 5) as int) =~= Seq::<Token>::empty());
        assert(nodes_toks(body@) =~= models(
            tokens@.subrange((pos + 5) as int, (pos + 5) as int),
        ));
    }
    loop
        invariant
            n == tokens@.len(),
            pos + 5 <= p <= n,
            bigm == models(tokens@),
            (forall|j: int| 0 <= j < tokens@.len() ==> bigm[j] == token_model(
                #[trigger] tokens@[j],
            )),
            tokens@[pos as int] == Token::INT,
            token_model(tokens@[pos + 1]) == TokenModel::Id(name@),
            tokens@[pos + 2] == Token::LeftParen,
            tokens@[pos + 3] == Token::RightParen,
            tokens@[pos + 4] == Token::LeftBracket,
            stmts_ok(body@),
            nodes_toks(body@) == models(tokens@.subrange((pos + 5) as int, p as int)),
            body_end(bigm, (pos + 5) as int) == body_end(bigm, p as int),
        ensures
            n == tokens@.len(),
            pos + 5 <= p < n,
            tokens@[pos as int] == Token::INT,
            token_model(tokens@[pos + 1]) == TokenModel::Id(name@),
            tokens@[pos + 2] == Token::LeftParen,
            tokens@[pos + 3] == Token::RightParen,
            tokens@[pos + 4] == Token::LeftBracket,
            tokens@[p as int] == Token::RightBracket,
            stmts_ok(body@),
            nodes_toks(body@) == models(tokens@.subrange((pos + 5) as int, p as int)),
            body_end(bigm, (pos + 5) as int) == body_end(bigm, p as int),
        decreases n - p,
    {
        if p >= n {
            proof {
                assert(body_end(bigm, p as int) is None);
            }
            return Err("function body never closed".to_owned());
        }
        let at_close = match &tokens[p] {
            Token::RightBracket => true,
            _ => false,
        };
        if at_close {
            break ;
        }
        match walk(tokens, p) {
            Ok((nd, p2)) => {
                proof {
                    lemma_nodes_toks_push(body@, nd);
                    lemma_stmts_ok_push(body@, nd);
                    lemma_models_concat(tokens@, (pos + 5) as int, p as int, p2 as int);
                    assert(body_end(bigm, p as int) == body_end(bigm, p2 as int));
                }
                body.push(nd);
                p = p2;
            },
            Err(e) => {
                proof {
                    assert(body_end(bigm, p as int) is None);
                }
                return Err(e);
            },
        }
    }
    let node = Node::FuncDef { name, return_type: PrimType::Int, body };
    proof {
        assert(node_toks(node) =~= models(tokens@.subrange(pos as int, (p + 1) as int)));
        assert(body_end(bigm, p as int) == Some(p as int));
        assert(funcdef_end(bigm, pos as int) == Some((p + 1) as int));
    }
    Ok((node, p + 1))
}

/// Parse a whole token stream: a sequence of function definitions. A
/// successful parse always yields a program of well-shaped function
/// definitions that renders back, token for token, to the input.
pub fn parser(tokens: Vec<Token>) -> (r: Result<Node, String>)
    ensures
        (match r {
            Ok(nd) => program_ok(nd) && node_toks(nd) == models(tokens@),
            Err(_) => true,
        }),
        r is Ok <==> program_accepted(models(tokens@)),
{
    let ghost bigm = models(tokens@);
    let n = tokens.len();
    let mut body: Vec<Node> = Vec::new();
    let mut p: usize = 0;
    proof {
        assert(tokens@.subrange(0, 0) =~= Seq::<Token>::empty());
        assert(nodes_toks(body@) =~= models(tokens@.subrange(0, 0)));
        assert(bigm.len() == tokens@.len());
    }
    while p < n
        invariant
            n == tokens@.len(),
            p <= n,
            bigm == models(tokens@),
            bigm.len() == n,
            funcdefs_ok(body@),
            nodes_toks(body@) == models(tokens@.subrange(0, p as int)),
            program_accepted_from(bigm, 0) == program_accepted_from(bigm, p as int),
        decreases n - p,
    {
        match parse_func_def(&tokens, p) {
            Ok((nd, p2)) => {
                proof {
                    lemma_nodes_toks_push(body@, nd);
                    lemma_funcdefs_ok_push(body@, nd);
                    lemma_models_concat(tokens@, 0, p as int, p2 as int);
                    assert(program_accepted_from(bigm, p as int) == program_accepted_from(
                        bigm,
                        p2 as int,
                    ));
                }
                body.push(nd);
                p = p2;
            },
            Err(e) => {
                proof {
                    assert(!program_accepted_from(bigm, p as int));
                }
                return Err(e);
            },
        }
    }
    proof {
        assert(tokens@.subrange(0, n as int) =~= tokens@);
        assert(program_accepted_from(bigm, n as int));
    }
    Ok(Node::Program { body })
}

/// A node the code generator can translate: anything but a nested program.
pub open spec fn gen_ok(n: Node) -> bool
    decreases n,
{
    match n {
        Node::Program { body: _ } => false,
        Node::FuncDef { name: _, return_type: _, body } => gens_ok(body@),
        Node::FuncCall { name: _, args } => gens_ok(args@),
        Node::Expr { value } => gens_ok(value@),
        Node::IntConst { n: _ } => true,
    }
}

pub open spec fn gens_ok(ns: Seq<Node>) -> bool
    decreases ns,
{
    if ns.len() == 0 {
        true
    } else {
        gen_ok(ns[0]) && gens_ok(ns.drop_first())
    }
}

/// The assembly lines one node translates to: a definition becomes its
/// label, its body, and `exit` for `main` or a return jump otherwise; a call
/// becomes its arguments and either the print instruction or a `jalr`; an
/// integer constant loads itself into the argument register.
pub open spec fn trans_lines(n: Node) -> Seq<Seq<char>>
    decreases n,
{
    match n {
        Node::Program { body: _ } => Seq::empty(),
        Node::FuncDef { name, return_type: _, body } => seq![name@ + ":"@] + nodes_lines(body@)
            + (if name@ == "main"@ {
            seq!["exit"@]
        } else {
            seq!["jal $ra"@]
        }),
        Node::FuncCall { name, args } => nodes_lines(args@) + (if name@ == "print_int"@ {
            seq!["print_int $a0"@]
        } else {
            seq!["jalr "@ + name@]
        }),
        Node::Expr { value } => nodes_lines(value@),
        Node::IntConst { n } => seq!["addi $a0, $zero, "@ + int_str(n as int)],
    }
}

pub open spec fn nodes_lines(ns: Seq<Node>) -> Seq<Seq<char>>
    decreases ns,
{
    if ns.len() == 0 {
        Seq::empty()
    } else {
        trans_lines(ns[0]) + nodes_lines(ns.drop_first())
    }
}

proof fn lemma_nodes_lines_push(ns: Seq<Node>, nd: Node)
    ensures
        nodes_lines(ns.push(nd)) == nodes_lines(ns) + trans_lines(nd),
        gens_ok(ns.push(nd)) == (gens_ok(ns) && gen_ok(nd)),
    decreases ns.len(),
{
    if ns.len() == 0 {
        assert(ns.push(nd)[0] == nd);
        assert(ns.push(nd).drop_first() =~= Seq::<Node>::empty());
        assert(nodes_lines(ns.push(nd).drop_first()) =~= Seq::<Seq<char>>::empty());
        assert(nodes_lines(ns.push(nd)) == trans_lines(nd) + nodes_lines(
            ns.push(nd).drop_first(),
        ));
        assert(nodes_lines(ns.push(nd)) =~= nodes_lines(ns) + trans_lines(nd));
        assert(gens_ok(ns.push(nd).drop_first()));
        assert(gens_ok(ns.push(nd)) == (gen_ok(nd) && gens_ok(ns.push(nd).drop_first())));
    } else {
        assert(ns.push(nd)[0] == ns[0]);
        assert(ns.push(nd).drop_first() =~= ns.drop_first().push(nd));
        lemma_nodes_lines_push(ns.drop_first(), nd);
        assert(nodes_lines(ns.push(nd)) == trans_lines(ns[0]) + nodes_lines(
            ns.drop_first().push(nd),
        ));
        assert(nodes_lines(ns) == trans_lines(ns[0]) + nodes_lines(ns.drop_first()));
        assert(nodes_lines(ns.push(nd)) =~= nodes_lines(ns) + trans_lines(nd));
        assert(gens_ok(ns.push(nd)) == (gen_ok(ns[0]) && gens_ok(ns.drop_first().push(nd))));
        assert(gens_ok(ns) == (gen_ok(ns[0]) && gens_ok(ns.drop_first())));
    }
}

/// Translate one node, appending its lines; a nested program anywhere in
/// the tree is refused and the output is then meaningless.
fn translate_ast(ast: &Node, out: &mut Vec<String>) -> (r: Result<(), String>)
    ensures
        r is Ok <==> gen_ok(*ast),
        r is Ok ==> final(out).deep_view() == old(out).deep_view() + trans_lines(*ast),
    decreases *ast,
{
    match ast {
        Node::Program { body: _ } => Err("the root of the tree must be the program".to_owned()),
        Node::FuncDef { name, return_type: _, body } => {
            let mut line = name.clone();
            line.append(":");
            let ghost base = out.deep_view();
            let ghost lbl = line@;
            out.push(line);
            proof {
                assert(out.deep_view() =~= base.push(lbl));
            }
            let m = body.len();
            let mut k: usize = 0;
            proof {
                assert(body@.subrange(0, 0) =~= Seq::<Node>::empty());
                assert(out.deep_view() =~= base + seq![lbl] + nodes_lines(body@.subrange(0, 0)));
            }
            while k < m
                invariant
                    m == body@.len(),
                    k <= m,
                    base == old(out).deep_view(),
                    lbl == name@ + ":"@,
                    (*ast matches Node::FuncDef { name: _, return_type: _, body: bd } && bd@
                        == body@),
                    gen_ok(*ast) == gens_ok(body@),
                    gens_ok(body@.subrange(0, k as int)),
                    out.deep_view() == base + seq![lbl] + nodes_lines(body@.subrange(0, k as int)),
                decreases m - k,
            {
                proof {
                    assert(decreases_to!(*ast => body@[k as int]));
                }
                match translate_ast(&body[k], out) {
                    Ok(_) => {},
                    Err(e) => {
                        proof {
                            lemma_gens_ok_at(body@, k as int);
                        }
                        return Err(e);
                    },
                }
                proof {
                    assert(body@.subrange(0, (k + 1) as int) =~= body@.subrange(0, k as int).push(
                        body@[k as int],
                    ));
                    lemma_nodes_lines_push(body@.subrange(0, k as int), body@[k as int]);
                }
                k = k + 1;
            }
            let tail = if str_eq(name.as_str(), "main") {
                "exit".to_owned()
            } else {
                "jal $ra".to_owned()
            };
            let ghost before_tail = out.deep_view();
            let ghost tl = tail@;
            out.push(tail);
            proof {
                assert(body@.subrange(0, m as int) =~= body@);
                assert(out.deep_view() =~= before_tail.push(tl));
                assert(out.deep_view() =~= old(out).deep_view() + trans_lines(*ast));
            }
            Ok(())
        },
        Node::FuncCall { name, args } => {
            let ghost base = out.deep_view();
            let m = args.len();
            let mut k: usize = 0;
            proof {
                assert(args@.subrange(0, 0) =~= Seq::<Node>::empty());
                assert(out.deep_view() =~= base + nodes_lines(args@.subrange(0, 0)));
            }
            while k < m
                invariant
                    m == args@.len(),
                    k <= m,
                    base == old(out).deep_view(),
                    (*ast matches Node::FuncCall { name: _, args: ag } && ag@ == args@),
                    gen_ok(*ast) == gens_ok(args@),
                    gens_ok(args@.subrange(0, k as int)),
                    out.deep_view() == base + nodes_lines(args@.subrange(0, k as int)),
                decreases m - k,
            {
                proof {
                    assert(decreases_to!(*ast => args@[k as int]));
                }
                match translate_ast(&args[k], out) {
                    Ok(_) => {},
                    Err(e) => {
                        proof {
                            lemma_gens_ok_at(args@, k as int);
                        }
                        return Err(e);
                    },
                }
                proof {
                    assert(args@.subrange(0, (k + 1) as int) =~= args@.subrange(0, k as int).push(
                        args@[k as int],
                    ));
                    lemma_nodes_lines_push(args@.subrange(0, k as int), args@[k as int]);
                }
                k = k + 1;
            }
            let tail = if str_eq(name.as_str(), "print_int") {
                "print_int $a0".to_owned()
            } else {
                let mut l = "jalr ".to_owned();
                l.append(name.as_str());
                l
            };
            let ghost before_tail = out.deep_view();
            let ghost tl = tail@;
            out.push(tail);
            proof {
                assert(args@.subrange(0, m as int) =~= args@);
                assert(out.deep_view() =~= before_tail.push(tl));
                assert(out.deep_view() =~= old(out).deep_view() + trans_lines(*ast));
            }
            Ok(())
        },
        Node::Expr { value } => {
            let ghost base = out.deep_view();
            let m = value.len();
            let mut k: usize = 0;
            proof {
                assert(value@.subrange(0, 0) =~= Seq::<Node>::empty());
                assert(out.deep_view() =~= base + nodes_lines(value@.subrange(0, 0)));
            }
            while k < m
                invariant
                    m == value@.len(),
                    k <= m,
                    base == old(out).deep_view(),
                    (*ast matches Node::Expr { value: vl } && vl@ == value@),
                    gen_ok(*ast) == gens_ok(value@),
                    gens_ok(value@.subrange(0, k as int)),
                    out.deep_view() == base + nodes_lines(value@.subrange(0, k as int)),
                decreases m - k,
            {
                proof {
                    assert(decreases_to!(*ast => value@[k as int]));
                }
                match translate_ast(&value[k], out) {
                    Ok(_) => {},
                    Err(e) => {
                        proof {
                            lemma_gens_ok_at(value@, k as int);
                        }
                        return Err(e);
                    },
                }
                proof {
                    assert(value@.subrange(0, (k + 1) as int) =~= value@.subrange(
                        0,
                        k as int,
                    ).push(value@[k as int]));
                    lemma_nodes_lines_push(value@.subrange(0, k as int), value@[k as int]);
                }
                k = k + 1;
            }
            proof {
                assert(value@.subrange(0, m as int) =~= value@);
                assert(out.deep_view() =~= old(out).deep_view() + trans_lines(*ast));
            }
            Ok(())
        },
        Node::IntConst { n } => {
            let mut l = "addi $a0, $zero, ".to_owned();
            let d = i64_to_string(*n);
            l.append(d.as_str());
            let ghost base = out.deep_view();
            let ghost ln = l@;
            out.push(l);
            proof {
                assert(out.deep_view() =~= base.push(ln));
                assert(out.deep_view() =~= old(out).deep_view() + trans_lines(*ast));
            }
            Ok(())
        },
    }
}

/// Translate a whole program to assembly lines: the root must be the
/// program node, and every node under it must be translatable.
pub fn generate_code(program: Node) -> (r: Result<Vec<String>, String>)
    ensures
        (match r {
            Ok(v) => (program matches Node::Program { body } && gens_ok(body@)
                && v.deep_view() == nodes_lines(body@)),
            Err(_) => !(program matches Node::Program { body } && gens_ok(body@)),
        }),
{
    match program {
        Node::Program { body } => {
            let mut out: Vec<String> = Vec::new();
            let m = body.len();
            let mut k: usize = 0;
            proof {
                assert(body@.subrange(0, 0) =~= Seq::<Node>::empty());
                assert(out.deep_view() =~= nodes_lines(body@.subrange(0, 0)));
            }
            while k < m
                invariant
                    m == body@.len(),
                    k <= m,
                    (program matches Node::Program { body: bd } && bd@ == body@),
                    gens_ok(body@.subrange(0, k as int)),
                    out.deep_view() == nodes_lines(body@.subrange(0, k as int)),
                decreases m - k,
            {
                match translate_ast(&body[k], &mut out) {
                    Ok(_) => {},
                    Err(e) => {
                        proof {
                            lemma_gens_ok_at(body@, k as int);
                        }
                        return Err(e);
                    },
                }
                proof {
                    assert(body@.subrange(0, (k + 1) as int) =~= body@.subrange(0, k as int).push(
                        body@[k as int],
                    ));
                    lemma_nodes_lines_push(body@.subrange(0, k as int), body@[k as int]);
                }
                k = k + 1;
            }
            proof {
                assert(body@.subrange(0, m as int) =~= body@);
            }
            Ok(out)
        },
        _ => Err("the root of the tree must be the program".to_owned()),
    }
}

/// A sequence of translatable nodes is translatable at each index.
proof fn lemma_gens_ok_at(ns: Seq<Node>, k: int)
    requires
        0 <= k < ns.len(),
        !gen_ok(ns[k]),
    ensures
        !gens_ok(ns),
    decreases k,
{
    if k > 0 {
        assert(ns.drop_first()[k - 1] == ns[k]);
        lemma_gens_ok_at(ns.drop_first(), k - 1);
    }
}

} // verus!
