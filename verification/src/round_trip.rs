//! Every expression can be written down, and what is written down is read
//! back as the same expression.
use vstd::prelude::*;
use crate::ast::{literal, Operator, Tree};
use crate::lex::{Lexeme, TokenTy};
use crate::parse::{
    arguments, bin_expr, lookahead, more_arguments, more_operands, operand, operator_of,
    parse_tokens_spec, ParseFailure,
};

verus! {

/// The text that names `operator`.
pub open spec fn operator_text(operator: Operator) -> Seq<char> {
    match operator {
        Operator::Add => "+"@,
        Operator::Subtract => "-"@,
        Operator::Multiply => "*"@,
        Operator::Divide => "/"@,
    }
}

/// The token `(`.
pub open spec fn left_paren() -> Lexeme {
    Lexeme { ty: TokenTy::LParen, text: "("@ }
}

/// The token `)`.
pub open spec fn right_paren() -> Lexeme {
    Lexeme { ty: TokenTy::RParen, text: ")"@ }
}

/// The token `,`.
pub open spec fn comma() -> Lexeme {
    Lexeme { ty: TokenTy::Comma, text: ","@ }
}

/// The tokens of `tree`, written with parentheses round every operator and
/// its operands.
pub open spec fn written(tree: Tree) -> Seq<Lexeme>
    decreases tree, 0nat,
{
    match tree {
        Tree::Number { text } => seq![Lexeme { ty: TokenTy::Number, text }],
        Tree::BinaryOp { operator, left, right } => seq![left_paren()] + written(*left)
            + seq![Lexeme { ty: TokenTy::Operator, text: operator_text(operator) }] + written(
            *right,
        ) + seq![right_paren()],
        Tree::Call { name, args } => seq![Lexeme { ty: TokenTy::Ident, text: name }, left_paren()]
            + written_list(args, args.len()) + seq![right_paren()],
    }
}

/// The tokens of the first `n` of `args`, with a comma between each two.
pub open spec fn written_list(args: Seq<Tree>, n: nat) -> Seq<Lexeme>
    decreases args, n,
{
    if n == 0 || n > args.len() {
        Seq::empty()
    } else if n == 1 {
        written(args[0])
    } else {
        written_list(args, (n - 1) as nat) + seq![comma()] + written(args[n - 1])
    }
}

/// The `n` tokens of `w` from `from` on.
pub open spec fn stretch(w: Seq<Lexeme>, from: nat, n: nat) -> Seq<Lexeme> {
    w.subrange(from as int, (from + n) as int)
}

/// The buffer holds the tokens `w` from `pos` on.
pub open spec fn stands_at(ts: Seq<Lexeme>, pos: nat, w: Seq<Lexeme>) -> bool {
    pos + w.len() <= ts.len() && stretch(ts, pos, w.len()) == w
}

/// Where `w` stands, each stretch of it stands.
proof fn lemma_part_stands(ts: Seq<Lexeme>, pos: nat, w: Seq<Lexeme>, off: nat, part: Seq<Lexeme>)
    requires
        stands_at(ts, pos, w),
        off + part.len() <= w.len(),
        stretch(w, off, part.len()) == part,
    ensures
        stands_at(ts, pos + off, part),
{
    assert(stretch(ts, pos + off, part.len()) =~= stretch(
        stretch(ts, pos, w.len()),
        off,
        part.len(),
    ));
}

/// Where `w` stands, each token of it is the token of the buffer there.
proof fn lemma_token_stands(ts: Seq<Lexeme>, pos: nat, w: Seq<Lexeme>, off: nat)
    requires
        stands_at(ts, pos, w),
        off < w.len(),
    ensures
        lookahead(ts, pos + off) == w[off as int],
{
    assert(stretch(ts, pos, w.len())[off as int] == ts[(pos + off) as int]);
}

/// What is written starts with a number, a name or a parenthesis.
proof fn lemma_written_starts(tree: Tree)
    ensures
        written(tree).len() >= 1,
        written(tree)[0].ty == TokenTy::Number || written(tree)[0].ty == TokenTy::Ident
            || written(tree)[0].ty == TokenTy::LParen,
{
}

/// The text of an operator names it.
proof fn lemma_operator_text_names(operator: Operator)
    ensures
        operator_of(operator_text(operator)) == Some(operator),
{
    reveal_strlit("+");
    reveal_strlit("-");
    reveal_strlit("*");
    reveal_strlit("/");
    assert("+"@.len() == 1 && "-"@.len() == 1 && "*"@.len() == 1 && "/"@.len() == 1);
    assert("+"@[0] == '+' && "-"@[0] == '-' && "*"@[0] == '*' && "/"@[0] == '/');
}

/// The list of more arguments starts with the list of fewer, a comma and
/// the next argument.
proof fn lemma_list_grows(args: Seq<Tree>, k: nat, n: nat)
    requires
        1 <= k < n <= args.len(),
    ensures
        ({
            let shorter = written_list(args, k);
            let next = written(args[k as int]);
            let longer = written_list(args, n);
            &&& shorter.len() + 1 + next.len() <= longer.len()
            &&& stretch(longer, 0, shorter.len()) == shorter
            &&& longer[shorter.len() as int] == comma()
            &&& stretch(longer, shorter.len() + 1, next.len()) == next
        }),
    decreases n,
{
    let shorter = written_list(args, k);
    let next = written(args[k as int]);
    let longer = written_list(args, n);
    let before = written_list(args, (n - 1) as nat);
    let last = written(args[n - 1]);
    assert(longer == before + seq![comma()] + last);
    if k + 1 == n {
        assert(stretch(longer, 0, shorter.len()) =~= shorter);
        assert(stretch(longer, shorter.len() + 1, next.len()) =~= next);
    } else {
        lemma_list_grows(args, k, (n - 1) as nat);
        assert(stretch(longer, 0, shorter.len()) =~= stretch(before, 0, shorter.len()));
        assert(stretch(longer, shorter.len() + 1, next.len()) =~= stretch(
            before,
            shorter.len() + 1,
            next.len(),
        ));
    }
}

/// Where the tokens of a tree stand in a buffer, an expression read there
/// is that tree, and takes those tokens.
pub proof fn lemma_operand_reads(ts: Seq<Lexeme>, pos: nat, tree: Tree)
    requires
        literal(tree),
        stands_at(ts, pos, written(tree)),
    ensures
        operand(ts, pos) == Ok::<(Tree, nat), ParseFailure>((tree, written(tree).len())),
    decreases tree, 0nat,
{
    let w = written(tree);
    lemma_token_stands(ts, pos, w, 0);
    match tree {
        Tree::Number { text } => {},
        Tree::BinaryOp { operator, left, right } => {
            let l = written(*left);
            let r = written(*right);
            let sign = Lexeme { ty: TokenTy::Operator, text: operator_text(operator) };
            assert(w == seq![left_paren()] + l + seq![sign] + r + seq![right_paren()]);
            assert(stretch(w, 1, l.len()) =~= l);
            assert(stretch(w, 2 + l.len(), r.len()) =~= r);
            lemma_part_stands(ts, pos, w, 1, l);
            lemma_part_stands(ts, pos, w, 2 + l.len(), r);
            lemma_token_stands(ts, pos, w, 1 + l.len());
            lemma_token_stands(ts, pos, w, 2 + l.len() + r.len());
            lemma_operand_reads(ts, pos + 1, *left);
            lemma_operand_reads(ts, pos + 2 + l.len(), *right);
            lemma_operator_text_names(operator);
            let whole = Tree::BinaryOp { operator, left, right };
            assert(more_operands(ts, pos + 2 + l.len() + r.len(), whole, 1 + l.len() + r.len())
                == Ok::<(Tree, nat), ParseFailure>((whole, 1 + l.len() + r.len())));
            assert(more_operands(ts, pos + 1 + l.len(), *left, l.len()) == Ok::<
                (Tree, nat),
                ParseFailure,
            >((whole, 1 + l.len() + r.len())));
            assert(bin_expr(ts, pos + 1) == Ok::<(Tree, nat), ParseFailure>(
                (whole, 1 + l.len() + r.len()),
            ));
        },
        Tree::Call { name, args } => {
            let list = written_list(args, args.len());
            let head = seq![Lexeme { ty: TokenTy::Ident, text: name }, left_paren()];
            assert(w == head + list + seq![right_paren()]);
            lemma_token_stands(ts, pos, w, 1);
            lemma_token_stands(ts, pos, w, 2 + list.len());
            assert(stretch(w, 2, list.len()) =~= list);
            lemma_part_stands(ts, pos, w, 2, list);
            lemma_arguments_read(ts, pos + 2, args);
        },
    }
}

/// Where the tokens of a tree stand in a buffer and no operator follows
/// them, a chain of operators read there is that tree.
pub proof fn lemma_bin_expr_reads(ts: Seq<Lexeme>, pos: nat, tree: Tree)
    requires
        literal(tree),
        stands_at(ts, pos, written(tree)),
        lookahead(ts, pos + written(tree).len()).ty != TokenTy::Operator,
    ensures
        bin_expr(ts, pos) == Ok::<(Tree, nat), ParseFailure>((tree, written(tree).len())),
    decreases tree, 1nat,
{
    lemma_operand_reads(ts, pos, tree);
}

/// Where the tokens of a list of arguments stand in a buffer before a
/// closing parenthesis, the arguments read there are that list.
pub proof fn lemma_arguments_read(ts: Seq<Lexeme>, pos: nat, args: Seq<Tree>)
    requires
        forall|i: int| 0 <= i < args.len() ==> literal(#[trigger] args[i]),
        stands_at(ts, pos, written_list(args, args.len())),
        lookahead(ts, pos + written_list(args, args.len()).len()).ty == TokenTy::RParen,
    ensures
        arguments(ts, pos) == Ok::<(Seq<Tree>, nat), ParseFailure>(
            (args, written_list(args, args.len()).len()),
        ),
    decreases args, args.len() + 1,
{
    let list = written_list(args, args.len());
    if args.len() == 0 {
        assert(args =~= Seq::<Tree>::empty());
    } else {
        let first = written(args[0]);
        lemma_written_starts(args[0]);
        if args.len() == 1 {
            assert(stretch(list, 0, first.len()) =~= first);
        } else {
            lemma_list_grows(args, 1, args.len());
            assert(first == written_list(args, 1));
            assert(stretch(list, 0, first.len()) == first);
            lemma_token_stands(ts, pos, list, first.len());
        }
        lemma_part_stands(ts, pos, list, 0, first);
        lemma_token_stands(ts, pos, first, 0);
        lemma_bin_expr_reads(ts, pos, args[0]);
        assert(seq![args[0]] =~= args.take(1));
        lemma_more_arguments_read(ts, pos, args, 1);
    }
}

/// Behind the first `k` arguments of a list the other arguments are read.
pub proof fn lemma_more_arguments_read(ts: Seq<Lexeme>, pos: nat, args: Seq<Tree>, k: nat)
    requires
        1 <= k <= args.len(),
        forall|i: int| 0 <= i < args.len() ==> literal(#[trigger] args[i]),
        stands_at(ts, pos, written_list(args, args.len())),
        lookahead(ts, pos + written_list(args, args.len()).len()).ty == TokenTy::RParen,
    ensures
        more_arguments(
            ts,
            pos + written_list(args, k).len(),
            args.take(k as int),
            written_list(args, k).len(),
        ) == Ok::<(Seq<Tree>, nat), ParseFailure>((args, written_list(args, args.len()).len())),
    decreases args, args.len() - k,
{
    let list = written_list(args, args.len());
    let read = written_list(args, k);
    if k == args.len() {
        assert(args.take(k as int) =~= args);
    } else {
        let next = written(args[k as int]);
        let longer = written_list(args, k + 1);
        lemma_list_grows(args, k, args.len());
        assert(longer == read + seq![comma()] + next);
        lemma_token_stands(ts, pos, list, read.len());
        lemma_part_stands(ts, pos, list, read.len() + 1, next);
        if k + 1 < args.len() {
            lemma_list_grows(args, k + 1, args.len());
            lemma_token_stands(ts, pos, list, longer.len());
        }
        lemma_bin_expr_reads(ts, pos + read.len() + 1, args[k as int]);
        assert(args.take(k as int).push(args[k as int]) =~= args.take((k + 1) as int));
        lemma_more_arguments_read(ts, pos, args, k + 1);
    }
}

/// Parsing undoes writing: the tokens of a tree whose numbers are literals
/// parse to that tree.
pub proof fn lemma_written_parses_back(tree: Tree)
    requires
        literal(tree),
    ensures
        parse_tokens_spec(written(tree)) == Ok::<Tree, ParseFailure>(tree),
{
    let ts = written(tree);
    assert(stretch(ts, 0, ts.len()) =~= ts);
    lemma_bin_expr_reads(ts, 0, tree);
}

} // verus!
