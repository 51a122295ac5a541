//! What holds of every program: of the tree that the parser follows, of the
//! constants of a chunk, and of its lines.
use vstd::prelude::*;
use crate::compiler::{compiled, refused};
use crate::lexer::{line_number, origin, token_lines, tokens, tokens_end, Lexer};
use crate::opcode::OpCode;
use crate::parser_rules::{infix_rules, rule_of, ParseFn, Precedence};
use crate::syntax::{
    emitted_counts, head, parse_infix, parse_precedence, parse_precedence_sound, parse_prefix,
    parse_program, tail, Expr, Parsed, MAX_CONSTANTS,
};
use crate::token::{Token, TokenKind};

verus! {

/// The parser accepts every tree of the grammar. Where the tokens of `tree`
/// stand before `rest`, and `rest` does not begin with an operator that binds
/// more tightly than `tree` holds together, the parser reads the tokens of
/// `tree` and carries `tree` on.
pub proof fn parser_reads_tree(tree: Expr, rest: Seq<Token>, level: Precedence, base: nat)
    requires
        tree.well_formed(),
        base + tree.numbers() <= MAX_CONSTANTS,
        level.rank() <= tree.tightness().rank(),
        rule_of(head(rest).kind).infix == ParseFn::Binary ==> rule_of(
            head(rest).kind,
        ).precedence.rank() <= tree.tightness().rank(),
    ensures
        parse_precedence(tree.tokens() + rest, level, base) == parse_infix(rest, level, tree, base),
    decreases tree,
{
    let ts = tree.tokens() + rest;
    infix_rules(head(rest).kind);
    match tree {
        Expr::Number { token } => {
            assert(head(ts) == token);
            assert(tail(ts) =~= rest);
        },
        Expr::Literal { token } => {
            assert(head(ts) == token);
            assert(tail(ts) =~= rest);
        },
        Expr::Grouping { open, inner, close } => {
            let behind = seq![close] + rest;
            assert(head(ts) == open);
            assert(tail(ts) =~= inner.tokens() + behind);
            assert(head(behind) == close);
            assert(tail(behind) =~= rest);
            infix_rules(close.kind);
            tightness_is_high(*inner);
            parser_reads_tree(*inner, behind, Precedence::Assignment, base);
            assert(parse_prefix(ts, base) == Parsed::Tree { tree, rest });
        },
        Expr::Unary { operator, operand } => {
            assert(head(ts) == operator);
            assert(tail(ts) =~= operand.tokens() + rest);
            parser_reads_tree(*operand, rest, Precedence::Unary, base);
            assert(parse_prefix(ts, base) == Parsed::Tree { tree, rest });
        },
        Expr::Binary { left, operator, right } => {
            let behind = seq![operator] + (right.tokens() + rest);
            assert(ts =~= left.tokens() + behind);
            assert(head(behind) == operator);
            assert(tail(behind) =~= right.tokens() + rest);
            infix_rules(operator.kind);
            let up = rule_of(operator.kind).precedence.tighter();
            parser_reads_tree(*left, behind, level, base);
            parser_reads_tree(*right, rest, up, base + left.numbers());
            parse_precedence_sound(right.tokens() + rest, up, base + left.numbers());
            assert(parse_infix(rest, up, *right, base + left.numbers()) == Parsed::Tree {
                tree: *right,
                rest,
            });
            assert(rest.len() < behind.len());
        },
    }
}

/// Every expression holds together at least as tightly as `+` and `-` bind.
proof fn tightness_is_high(tree: Expr)
    requires
        tree.well_formed(),
    ensures
        tree.tightness().rank() >= Precedence::Term.rank(),
{
    match tree {
        Expr::Binary { operator, .. } => {
            infix_rules(operator.kind);
        },
        _ => {},
    }
}

/// The parser makes of the tokens of a tree of the grammar, with the end of
/// the source behind them, that tree and no other: the grammar is
/// unambiguous, and every program of the grammar that holds no more than 256
/// numbers is accepted.
pub proof fn grammar_is_accepted(tree: Expr, end: Token)
    requires
        tree.well_formed(),
        tree.numbers() <= MAX_CONSTANTS,
        end.kind == TokenKind::Eof,
    ensures
        parse_program(tree.tokens() + seq![end]) == (Parsed::Tree { tree, rest: seq![end] }),
{
    let rest = seq![end];
    assert(head(rest) == end);
    tightness_is_high(tree);
    parser_reads_tree(tree, rest, Precedence::Assignment, 0);
}

/// What the parser accepts is a program of the grammar: the tree that its
/// bytecode is written from is well formed, and its tokens are those of the
/// source, in their order, up to the end of the source.
pub proof fn accepted_is_grammar(source: Seq<char>)
    requires
        refused(source) is None,
    ensures
        parse_program(tokens(source)) matches Parsed::Tree { tree, rest } && tree.well_formed()
            && tokens(source) == tree.tokens() + rest && rest.len() == 1 && rest[0].kind
            == TokenKind::Eof,
{
    let ts = tokens(source);
    parse_precedence_sound(ts, Precedence::Assignment, 0);
    tokens_end(source, origin());
    let tree = parse_program(ts)->tree;
    let rest = parse_program(ts)->rest;
    assert(head(rest).kind == TokenKind::Eof);
    let cut = tree.tokens().len() as int;
    tree_holds_no_end(tree, cut - 1);
    if rest.len() == 0 {
        assert(ts.last() == tree.tokens()[cut - 1]);
    }
    assert(ts[cut] == rest[0]);
}

/// No token of a tree of the grammar is the end of the source.
proof fn tree_holds_no_end(tree: Expr, i: int)
    requires
        tree.well_formed(),
    ensures
        tree.tokens().len() >= 1,
        0 <= i < tree.tokens().len() ==> tree.tokens()[i].kind != TokenKind::Eof,
    decreases tree,
{
    match tree {
        Expr::Grouping { open, inner, close } => {
            tree_holds_no_end(*inner, i - 1);
        },
        Expr::Unary { operator, operand } => {
            tree_holds_no_end(*operand, i - 1);
        },
        Expr::Binary { left, operator, right } => {
            tree_holds_no_end(*left, i);
            tree_holds_no_end(*right, i - left.tokens().len() - 1);
        },
        _ => {},
    }
}

/// Binary operators group to the left: in a tree of the grammar the right
/// operand of an operator is never an expression of an operator that binds
/// as loosely or more loosely, so `a - b - c` is `(a - b) - c`; and the left
/// operand never one of an operator that binds more loosely.
pub proof fn operators_group_left(tree: Expr)
    requires
        tree.well_formed(),
        tree is Binary,
    ensures
        *(tree->right) matches Expr::Binary { operator, .. } ==> rule_of(
            operator.kind,
        ).precedence.rank() > rule_of(tree->Binary_operator.kind).precedence.rank(),
        *(tree->left) matches Expr::Binary { operator, .. } ==> rule_of(
            operator.kind,
        ).precedence.rank() >= rule_of(tree->Binary_operator.kind).precedence.rank(),
{
}

/// `*` and `/` bind more tightly than `+` and `-`, and unary operators more
/// tightly than any binary one: in a tree of the grammar no operand of `*`
/// or `/` is an expression of `+` or `-`, and the operand of a unary
/// operator is never a binary expression.
pub proof fn operators_bind_by_precedence(tree: Expr)
    requires
        tree.well_formed(),
    ensures
        rule_of(TokenKind::Star).precedence.rank() > rule_of(TokenKind::Plus).precedence.rank(),
        rule_of(TokenKind::Star).precedence == rule_of(TokenKind::Slash).precedence,
        rule_of(TokenKind::Plus).precedence == rule_of(TokenKind::Minus).precedence,
        tree matches Expr::Unary { operand, .. } ==> !(*operand is Binary),
        tree matches Expr::Binary { left, operator, right } ==> {
            &&& rule_of(operator.kind).precedence.rank() < Precedence::Unary.rank()
            &&& (operator.kind == TokenKind::Star || operator.kind == TokenKind::Slash) ==> {
                &&& *left matches Expr::Binary { operator: inner, .. } ==> inner.kind
                    == TokenKind::Star || inner.kind == TokenKind::Slash
                &&& !(*right is Binary)
            }
        },
{
    match tree {
        Expr::Unary { operand, .. } => {
            match *operand {
                Expr::Binary { operator, .. } => {
                    infix_rules(operator.kind);
                },
                _ => {},
            }
        },
        Expr::Binary { left, operator, right } => {
            infix_rules(operator.kind);
            match *left {
                Expr::Binary { operator: inner, .. } => {
                    infix_rules(inner.kind);
                },
                _ => {},
            }
            match *right {
                Expr::Binary { operator: inner, .. } => {
                    infix_rules(inner.kind);
                },
                _ => {},
            }
        },
        _ => {},
    }
}

/// The texts of the numbers among some tokens, in their order.
pub open spec fn number_texts(ts: Seq<Token>, source: Seq<char>) -> Seq<Seq<char>>
    decreases ts.len(),
{
    if ts.len() == 0 {
        Seq::empty()
    } else if ts.last().kind == TokenKind::Number {
        number_texts(ts.drop_last(), source).push(ts.last().text(source))
    } else {
        number_texts(ts.drop_last(), source)
    }
}

/// The operand bytes of the `OpConstant` instructions of some code, in
/// their order.
pub open spec fn constant_operands(code: Seq<u8>) -> Seq<u8>
    decreases code.len(),
{
    if code.len() == 0 {
        Seq::empty()
    } else if OpCode::decode(code[0]) == OpCode::OpConstant {
        if code.len() < 2 {
            Seq::empty()
        } else {
            seq![code[1]] + constant_operands(code.skip(2))
        }
    } else {
        constant_operands(code.skip(1))
    }
}

/// Whether the code is made of whole instructions.
pub open spec fn whole(code: Seq<u8>) -> bool
    decreases code.len(),
{
    if code.len() == 0 {
        true
    } else if OpCode::decode(code[0]) == OpCode::OpConstant {
        code.len() >= 2 && whole(code.skip(2))
    } else {
        whole(code.skip(1))
    }
}

/// The indices from `base` on, `count` of them.
pub open spec fn indices(base: nat, count: nat) -> Seq<u8> {
    Seq::new(count, |k: int| (base + k) as u8)
}

proof fn number_texts_join(a: Seq<Token>, b: Seq<Token>, source: Seq<char>)
    ensures
        number_texts(a + b, source) == number_texts(a, source) + number_texts(b, source),
    decreases b.len(),
{
    if b.len() == 0 {
        assert(a + b =~= a);
        assert(number_texts(a, source) + number_texts(b, source) =~= number_texts(a, source));
    } else {
        assert((a + b).drop_last() =~= a + b.drop_last());
        assert((a + b).last() == b.last());
        number_texts_join(a, b.drop_last(), source);
        if b.last().kind == TokenKind::Number {
            assert(number_texts(a + b, source) =~= number_texts(a, source) + number_texts(
                b,
                source,
            ));
        }
    }
}

proof fn number_texts_one(token: Token, source: Seq<char>)
    ensures
        number_texts(seq![token], source) == (if token.kind == TokenKind::Number {
            seq![token.text(source)]
        } else {
            Seq::empty()
        }),
{
    let ts = seq![token];
    assert(ts.drop_last() =~= Seq::<Token>::empty());
    assert(number_texts(ts.drop_last(), source) =~= Seq::<Seq<char>>::empty());
    if token.kind == TokenKind::Number {
        assert(number_texts(ts, source) =~= seq![token.text(source)]);
    }
}

proof fn operands_join(a: Seq<u8>, b: Seq<u8>)
    requires
        whole(a),
    ensures
        constant_operands(a + b) == constant_operands(a) + constant_operands(b),
        whole(b) ==> whole(a + b),
    decreases a.len(),
{
    if a.len() == 0 {
        assert(a + b =~= b);
        assert(constant_operands(a) + constant_operands(b) =~= constant_operands(b));
    } else if OpCode::decode(a[0]) == OpCode::OpConstant {
        assert((a + b).skip(2) =~= a.skip(2) + b);
        operands_join(a.skip(2), b);
        assert(constant_operands(a + b) =~= constant_operands(a) + constant_operands(b));
    } else {
        assert((a + b).skip(1) =~= a.skip(1) + b);
        operands_join(a.skip(1), b);
    }
}

proof fn operands_of_one(byte: u8)
    requires
        OpCode::decode(byte) != OpCode::OpConstant,
    ensures
        whole(seq![byte]),
        constant_operands(seq![byte]) == Seq::<u8>::empty(),
{
    let code = seq![byte];
    assert(code.skip(1) =~= Seq::<u8>::empty());
    assert(whole(code.skip(1)));
    assert(constant_operands(code.skip(1)) =~= Seq::<u8>::empty());
}

/// Constants are kept. The constants of the bytecode of a tree are the texts
/// of the numbers among the tree's tokens, in their order; the code is made
/// of whole instructions; and its `OpConstant` instructions name the
/// constants one after the other, each once.
pub proof fn constants_are_kept(tree: Expr, source: Seq<char>, base: nat)
    requires
        tree.well_formed(),
    ensures
        tree.emitted(source, base).constants == number_texts(tree.tokens(), source),
        whole(tree.emitted(source, base).code),
        constant_operands(tree.emitted(source, base).code) == indices(base, tree.numbers()),
    decreases tree,
{
    let part = tree.emitted(source, base);
    match tree {
        Expr::Number { token } => {
            number_texts_one(token, source);
            assert(part.constants =~= seq![token.text(source)]);
            let code = seq![OpCode::OpConstant.encode(), base as u8];
            assert(part.code =~= code);
            assert(code.skip(2) =~= Seq::<u8>::empty());
            assert(whole(code.skip(2)));
            assert(constant_operands(code.skip(2)) =~= Seq::<u8>::empty());
            assert(constant_operands(code) =~= indices(base, 1));
        },
        Expr::Literal { token } => {
            number_texts_one(token, source);
            operands_of_one(part.code[0]);
            assert(part.code =~= seq![part.code[0]]);
            assert(part.constants =~= Seq::<Seq<char>>::empty());
            assert(indices(base, 0) =~= Seq::<u8>::empty());
        },
        Expr::Grouping { open, inner, close } => {
            constants_are_kept(*inner, source, base);
            number_texts_one(open, source);
            number_texts_one(close, source);
            number_texts_join(seq![open], inner.tokens(), source);
            number_texts_join(seq![open] + inner.tokens(), seq![close], source);
            assert(number_texts(tree.tokens(), source) =~= number_texts(inner.tokens(), source));
        },
        Expr::Unary { operator, operand } => {
            constants_are_kept(*operand, source, base);
            number_texts_one(operator, source);
            number_texts_join(seq![operator], operand.tokens(), source);
            assert(number_texts(tree.tokens(), source) =~= number_texts(operand.tokens(), source));
            let inner = operand.emitted(source, base);
            let last = part.code[inner.code.len() as int];
            operands_of_one(last);
            operands_join(inner.code, seq![last]);
            assert(part.code =~= inner.code + seq![last]);
            assert(part.constants =~= inner.constants);
            assert(constant_operands(part.code) =~= indices(base, tree.numbers()));
        },
        Expr::Binary { left, operator, right } => {
            constants_are_kept(*left, source, base);
            constants_are_kept(*right, source, base + left.numbers());
            infix_rules(operator.kind);
            number_texts_one(operator, source);
            number_texts_join(left.tokens(), seq![operator], source);
            number_texts_join(left.tokens() + seq![operator], right.tokens(), source);
            let first = left.emitted(source, base);
            let second = right.emitted(source, base + left.numbers());
            assert(part.constants =~= first.constants + second.constants);
            assert(number_texts(tree.tokens(), source) =~= first.constants + second.constants);
            let last = part.code[(first.code.len() + second.code.len()) as int];
            operands_of_one(last);
            operands_join(first.code, second.code);
            operands_join(first.code + second.code, seq![last]);
            assert(part.code =~= first.code + second.code + seq![last]);
            assert(constant_operands(part.code) =~= indices(base, tree.numbers())) by {
                let all = indices(base, tree.numbers());
                let a = indices(base, left.numbers());
                let b = indices(base + left.numbers(), right.numbers());
                assert(all =~= a + b);
                assert(a + b + Seq::<u8>::empty() =~= a + b);
            }
        },
    }
}

/// For each byte of the bytecode of a tree, the token that it is written
/// for: a number for both bytes of its `OpConstant`, a literal or an operator
/// for its instruction.
pub open spec fn written_for(tree: Expr) -> Seq<Token>
    decreases tree,
{
    match tree {
        Expr::Number { token } => seq![token, token],
        Expr::Literal { token } => seq![token],
        Expr::Grouping { inner, .. } => written_for(*inner),
        Expr::Unary { operator, operand } => written_for(*operand) + seq![operator],
        Expr::Binary { left, operator, right } => written_for(*left) + written_for(*right)
            + seq![operator],
    }
}

/// Lines are kept. Each byte of the bytecode of a tree has the line of the
/// token that it is written for, and that token is one of the tree's.
pub proof fn lines_are_kept(tree: Expr, source: Seq<char>, base: nat, i: int)
    requires
        0 <= i < tree.emitted(source, base).code.len(),
    ensures
        written_for(tree).len() == tree.emitted(source, base).code.len(),
        tree.emitted(source, base).lines.len() == tree.emitted(source, base).code.len(),
        tree.emitted(source, base).lines[i] == written_for(tree)[i].line,
        tree.tokens().contains(written_for(tree)[i]),
    decreases tree,
{
    let part = tree.emitted(source, base);
    let by = written_for(tree);
    emitted_counts(tree, source, base);
    written_for_counts(tree, source, base);
    match tree {
        Expr::Number { token } => {
            assert(tree.tokens()[0] == token);
            assert(part.lines =~= seq![token.line, token.line]);
        },
        Expr::Literal { token } => {
            assert(tree.tokens()[0] == token);
        },
        Expr::Grouping { open, inner, close } => {
            lines_are_kept(*inner, source, base, i);
            let j = choose|j: int| 0 <= j < inner.tokens().len() && inner.tokens()[j] == by[i];
            assert(tree.tokens()[j + 1] == by[i]);
        },
        Expr::Unary { operator, operand } => {
            emitted_counts(*operand, source, base);
            written_for_counts(*operand, source, base);
            let inner = operand.emitted(source, base);
            if i < inner.code.len() {
                lines_are_kept(*operand, source, base, i);
                assert(part.lines[i] == inner.lines[i]);
                let j = choose|j: int|
                    0 <= j < operand.tokens().len() && operand.tokens()[j] == by[i];
                assert(tree.tokens()[j + 1] == by[i]);
            } else {
                assert(tree.tokens()[0] == operator);
            }
        },
        Expr::Binary { left, operator, right } => {
            emitted_counts(*left, source, base);
            emitted_counts(*right, source, base + left.numbers());
            written_for_counts(*left, source, base);
            written_for_counts(*right, source, base + left.numbers());
            let first = left.emitted(source, base);
            let second = right.emitted(source, base + left.numbers());
            let n = first.code.len() as int;
            let m = second.code.len() as int;
            let l = left.tokens().len() as int;
            if i < n {
                lines_are_kept(*left, source, base, i);
                assert(part.lines[i] == first.lines[i]);
                let j = choose|j: int| 0 <= j < l && left.tokens()[j] == by[i];
                assert(tree.tokens()[j] == by[i]);
            } else if i < n + m {
                lines_are_kept(*right, source, base + left.numbers(), i - n);
                assert(part.lines[i] == second.lines[i - n]);
                assert(by[i] == written_for(*right)[i - n]);
                let j = choose|j: int|
                    0 <= j < right.tokens().len() && right.tokens()[j] == by[i];
                assert(tree.tokens()[l + 1 + j] == by[i]);
            } else {
                assert(tree.tokens()[l] == operator);
            }
        },
    }
}

proof fn written_for_counts(tree: Expr, source: Seq<char>, base: nat)
    ensures
        written_for(tree).len() == tree.emitted(source, base).code.len(),
    decreases tree,
{
    match tree {
        Expr::Grouping { inner, .. } => {
            written_for_counts(*inner, source, base);
        },
        Expr::Unary { operand, .. } => {
            written_for_counts(*operand, source, base);
        },
        Expr::Binary { left, right, .. } => {
            written_for_counts(*left, source, base);
            written_for_counts(*right, source, base + left.numbers());
        },
        _ => {},
    }
}

/// The line of every token of a source is the line on which the token
/// begins: 1 and the number of line feeds before it.
pub proof fn tokens_carry_their_lines(source: Seq<char>, i: int)
    requires
        source.len() <= usize::MAX,
        0 <= i < tokens(source).len(),
    ensures
        tokens(source)[i].line == line_number(source, tokens(source)[i].start as int),
        tokens(source)[i].start <= source.len(),
{
    token_lines(source, origin(), i);
}

/// Lexing is repeatable: two lexers that stand at the same place of the same
/// source have the same tokens before them.
pub proof fn lexing_is_repeatable(first: Lexer, second: Lexer)
    requires
        first.source() == second.source(),
        first.position() == second.position(),
    ensures
        first.pending() == second.pending(),
{
}

/// The chunk of an accepted program: the bytecode of its tree and
/// `OpReturn`; its constants are the texts of the numbers of the source, in
/// their order, and its `OpConstant` instructions name them one after the
/// other, each once.
pub proof fn program_keeps_constants(source: Seq<char>)
    requires
        refused(source) is None,
    ensures
        compiled(source).constants == number_texts(tokens(source), source),
        whole(compiled(source).code),
        constant_operands(compiled(source).code) == indices(
            0,
            compiled(source).constants.len(),
        ),
        compiled(source).constants.len() <= MAX_CONSTANTS,
{
    let ts = tokens(source);
    accepted_is_grammar(source);
    parse_precedence_sound(ts, Precedence::Assignment, 0);
    let tree = parse_program(ts)->tree;
    let rest = parse_program(ts)->rest;
    let body = tree.emitted(source, 0);
    let chunk = compiled(source);
    constants_are_kept(tree, source, 0);
    emitted_counts(tree, source, 0);
    number_texts_one(rest[0], source);
    assert(rest =~= seq![rest[0]]);
    number_texts_join(tree.tokens(), rest, source);
    assert(chunk.constants =~= body.constants);
    assert(number_texts(ts, source) =~= body.constants);
    let last = OpCode::OpReturn.encode();
    operands_of_one(last);
    operands_join(body.code, seq![last]);
    assert(chunk.code =~= body.code + seq![last]);
    assert(constant_operands(chunk.code) =~= indices(0, tree.numbers()));
}

/// The lines of the chunk of an accepted program: every byte of code has the
/// line of a token of the source, the line on which that token begins.
pub proof fn program_keeps_lines(source: Seq<char>, i: int)
    requires
        source.len() <= usize::MAX,
        refused(source) is None,
        0 <= i < compiled(source).code.len(),
    ensures
        compiled(source).aligned(),
        exists|k: int|
            0 <= k < tokens(source).len() && compiled(source).lines[i] == (
            #[trigger] tokens(source)[k]).line && tokens(source)[k].line == line_number(
                source,
                tokens(source)[k].start as int,
            ),
{
    let ts = tokens(source);
    accepted_is_grammar(source);
    let tree = parse_program(ts)->tree;
    let rest = parse_program(ts)->rest;
    let body = tree.emitted(source, 0);
    let chunk = compiled(source);
    emitted_counts(tree, source, 0);
    let l = tree.tokens().len() as int;
    if i < body.code.len() {
        lines_are_kept(tree, source, 0, i);
        assert(chunk.lines[i] == body.lines[i]);
        let by = written_for(tree)[i];
        let j = choose|j: int| 0 <= j < l && tree.tokens()[j] == by;
        assert(ts[j] == by);
        tokens_carry_their_lines(source, j);
    } else {
        assert(ts[l] == rest[0]);
        assert(chunk.lines[i] == head(rest).line);
        tokens_carry_their_lines(source, l);
    }
}

} // verus!
