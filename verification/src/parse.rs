//! From text to tree: the tokens of a source file put under one node.

use vstd::prelude::*;
use vstd::string::StringSliceAdditionalSpecFns;
use vstd::utf8::{encode_utf8, is_char_boundary, is_char_boundary_start_end_of_seq, valid_utf8};

use crate::kind::Kind;
use crate::lexer::{
    lemma_lexer_kinds, lemma_run_end, lemma_text_run, lemma_token_at, run_end, token_at,
    tokens_from, Lexer, Run, Token, EOF,
};
use crate::text::{lemma_boundary_at_ascii, smol_chars};
use crate::token_tree::{
    checked, item_wf, items_len, items_text, items_tokens, lemma_chars_of, lemma_placed_items,
    lemma_tokens_spell_text, tokens_text, AstSink, Checked, Node, NodeOrToken, SyntaxError,
};

verus! {

/// In well-formed text every token ends where a character begins.
#[verifier::rlimit(40)]
pub proof fn lemma_token_ends_at_boundary(input: Seq<u8>, pos: int, after_backslash: bool)
    requires
        valid_utf8(input),
        0 <= pos <= input.len(),
    ensures
        is_char_boundary(input, token_at(input, pos, after_backslash).1),
{
    let (kind, end) = token_at(input, pos, after_backslash);
    lemma_token_at(input, pos, after_backslash);
    is_char_boundary_start_end_of_seq(input);
    if pos < input.len() && end < input.len() {
        let next = pos + 1;
        let first = input[pos];
        lemma_run_end(input, next, Run::Whitespace);
        lemma_run_end(input, next, Run::Comment);
        lemma_run_end(input, next, Run::StringBody);
        lemma_run_end(input, next, Run::Decimal);
        lemma_run_end(input, next, Run::Ident);
        if next < input.len() {
            lemma_run_end(input, next + 1, Run::Hex);
        }
        let digits = run_end(input, next, Run::Decimal);
        if digits < input.len() {
            lemma_run_end(input, digits + 1, Run::Decimal);
        }
        if input[end] < 0x80 {
            lemma_boundary_at_ascii(input, end);
        } else {
            assert(end > 0);
            assert(input[end - 1] < 0x80);
            lemma_boundary_at_ascii(input, end - 1);
        }
    }
}

/// Putting the texts of the tokens of a tree one after the other gives the
/// source back byte for byte, where the tree holds the text of the source
/// up to the first byte that ends it and the source holds no such byte.
pub proof fn lemma_round_trip(source: Seq<u8>, children: Seq<NodeOrToken>)
    requires
        items_text(children) == source.subrange(0, run_end(source, 0, Run::Text)),
        forall|i: int| 0 <= i < source.len() ==> #[trigger] source[i] != EOF,
    ensures
        tokens_text(items_tokens(children)) == source,
{
    lemma_text_run(source, 0, source.len() as int);
    assert(source.subrange(0, source.len() as int) =~= source);
    lemma_tokens_spell_text(children);
}

/// What is said of a string without closing quote.
pub open spec fn message_unterminated() -> Seq<char> {
    "this string is not terminated"@
}

/// What is said of a hexadecimal number without digits.
pub open spec fn message_empty_hex() -> Seq<char> {
    "a hexadecimal number needs at least one digit"@
}

/// Whether a token of this kind is an error in itself.
pub open spec fn is_lexical_error(kind: Kind) -> bool {
    kind == Kind::StringUnterminated || kind == Kind::NumberHexEmpty
}

/// Whether the children of the root are the given tokens, in order: each a
/// token of the tree, of the kind and the length of its token.
pub open spec fn are_leaves(children: Seq<NodeOrToken>, tokens: Seq<Token>) -> bool {
    &&& children.len() == tokens.len()
    &&& forall|i: int|
        0 <= i < tokens.len() ==> ((#[trigger] children[i]) matches NodeOrToken::Token(t)
            && t.kind == tokens[i].kind && encode_utf8(smol_chars(t.text)).len() == tokens[i].len)
}

/// The number of bytes that the tokens cover together.
pub open spec fn span(tokens: Seq<Token>) -> int
    decreases tokens.len(),
{
    if tokens.len() == 0 {
        0
    } else {
        span(tokens.drop_last()) + tokens.last().len
    }
}

/// A complaint as a value of the model: what is said, and the positions
/// between which the text complained about lies.
pub struct Complaint {
    pub message: Seq<char>,
    pub start: int,
    pub end: int,
}

/// The complaints, as values of the model.
pub open spec fn complaints(errors: Seq<SyntaxError>) -> Seq<Complaint> {
    Seq::new(
        errors.len(),
        |i: int|
            Complaint {
                message: errors[i].message@,
                start: errors[i].start as int,
                end: errors[i].end as int,
            },
    )
}

/// The complaints about the tokens that are errors in themselves, in the
/// order of the tokens: each says what is wrong with its token and names the
/// place of the token.
pub open spec fn lexical_errors(tokens: Seq<Token>) -> Seq<Complaint>
    decreases tokens.len(),
{
    if tokens.len() == 0 {
        Seq::empty()
    } else {
        let before = lexical_errors(tokens.drop_last());
        let start = span(tokens.drop_last());
        let end = start + tokens.last().len;
        if tokens.last().kind == Kind::StringUnterminated {
            before.push(Complaint { message: message_unterminated(), start, end })
        } else if tokens.last().kind == Kind::NumberHexEmpty {
            before.push(Complaint { message: message_empty_hex(), start, end })
        } else {
            before
        }
    }
}

/// Scans the text and puts its tokens under one node that stands for the
/// file. White space and comments are tokens like the others, so that the
/// tree holds the text from its beginning to its end, or to the first byte
/// that ends it. A string without closing quote and a hexadecimal number
/// without digits are complained about.
#[verifier::rlimit(40)]
pub fn parse_root(text: &str) -> (r: (Node, Vec<SyntaxError>))
    requires
        text.spec_bytes().len() <= u32::MAX,
    ensures
        r.0.kind == Kind::SourceFile,
        r.0.rel_pos == 0,
        are_leaves(r.0.children@, tokens_from(text.spec_bytes(), 0, false)),
        items_text(r.0.children@) == text.spec_bytes().subrange(
            0,
            run_end(text.spec_bytes(), 0, Run::Text),
        ),
        r.0.text_len == run_end(text.spec_bytes(), 0, Run::Text),
        item_wf(NodeOrToken::Node(r.0)),
        complaints(r.1@) == lexical_errors(tokens_from(text.spec_bytes(), 0, false)),
        r.0.error == (r.1@.len() > 0),
{
    let ghost input = text.spec_bytes();
    let mut sink = AstSink::new(text, None);
    sink.start_node(Kind::SourceFile);
    let mut lexer = Lexer::new(text);
    let ghost mut found: Seq<Token> = Seq::empty();
    proof {
        lemma_chars_of(text);
        assert(complaints(sink.errors()) =~= Seq::empty());
        assert(items_text(sink.tree().items()) =~= input.subrange(0, 0));
        assert(found + tokens_from(input, 0, false) =~= tokens_from(
            input,
            0,
            false,
        ));
    }
    loop
        invariant_except_break
            lexer.wf(),
            lexer.input() == input,
            sink.pos() == lexer.pos(),
            tokens_from(input, 0, false) == found + tokens_from(
                input,
                lexer.pos(),
                lexer.after_backslash(),
            ),
            are_leaves(sink.tree().items(), found),
            items_text(sink.tree().items()) == input.subrange(0, lexer.pos()),
            items_len(sink.tree().items()) == lexer.pos(),
            run_end(input, 0, Run::Text) == run_end(input, lexer.pos(), Run::Text),
            complaints(sink.errors()) == lexical_errors(found),
            lexer.pos() == span(found),
        invariant
            input == text.spec_bytes(),
            valid_utf8(input),
            input.len() <= u32::MAX,
            sink.wf(),
            sink.source() == input,
            sink.tree().parents() == seq![(Kind::SourceFile, 0usize)],
            sink.flagged() == (sink.errors().len() > 0),
        ensures
            are_leaves(sink.tree().items(), tokens_from(input, 0, false)),
            items_text(sink.tree().items()) == input.subrange(0, run_end(input, 0, Run::Text)),
            items_len(sink.tree().items()) == run_end(input, 0, Run::Text),
            complaints(sink.errors()) == lexical_errors(
                tokens_from(input, 0, false),
            ),
        decreases input.len() - lexer.pos(),
    {
        let ghost before = lexer.pos();
        let ghost flag = lexer.after_backslash();
        let ghost items = sink.tree().items();
        proof {
            lemma_token_at(input, before, flag);
            lemma_token_ends_at_boundary(input, before, flag);
            lemma_run_end(input, before, Run::Text);
        }
        let start = lexer.position();
        let ghost told = sink.errors();
        let next = lexer.next_token();
        if next.kind == Kind::Eof {
            proof {
                assert(tokens_from(input, before, flag) =~= Seq::empty());
                assert(found + Seq::<Token>::empty() =~= found);
                assert(run_end(input, before, Run::Text) == before);
            }
            break;
        }
        if next.kind == Kind::StringUnterminated {
            sink.error(
                SyntaxError {
                    message: "this string is not terminated".to_owned(),
                    start,
                    end: start + next.len,
                },
            );
        } else if next.kind == Kind::NumberHexEmpty {
            sink.error(
                SyntaxError {
                    message: "a hexadecimal number needs at least one digit".to_owned(),
                    start,
                    end: start + next.len,
                },
            );
        }
        let ghost name = input.subrange(before, before + next.len);
        proof {
            let grown = found.push(next);
            assert(grown.drop_last() =~= found);
            if is_lexical_error(next.kind) {
                assert(complaints(sink.errors()) =~= complaints(told).push(
                    Complaint {
                        message: sink.errors().last().message@,
                        start: start as int,
                        end: start + next.len,
                    },
                ));
            }
            assert(complaints(sink.errors()) =~= lexical_errors(grown));
            assert(checked(sink.map(), next.kind, name) == Checked::Plain(next.kind)) by {
                lemma_lexer_kinds(input, before, flag);
            }
        }
        sink.token(next.kind, next.len);
        proof {
            let rest = tokens_from(input, lexer.pos(), lexer.after_backslash());
            assert(tokens_from(input, before, flag) =~= seq![next] + rest);
            let grown = found.push(next);
            assert(found + (seq![next] + rest) =~= grown + rest);
            assert(grown.drop_last() =~= found);
            let after = sink.tree().items();
            assert forall|i: int| 0 <= i < grown.len() implies ((#[trigger] after[i]) matches NodeOrToken::Token(
                t,
            ) && t.kind == grown[i].kind && encode_utf8(smol_chars(t.text)).len() == grown[i].len) by {
                if i < found.len() {
                    assert(after[i] == after.drop_last()[i]);
                    assert(after[i] == items[i]);
                } else {
                    assert(after[i] == after.last());
                }
            }
            assert(input.subrange(0, before) + name =~= input.subrange(0, lexer.pos()));
            lemma_text_run(input, before, lexer.pos());
            reveal_with_fuel(items_len, 2);
            found = grown;
        }
    }
    proof {
        assert(sink.tree().items().skip(0) =~= sink.tree().items());
        assert(sink.tree().parents().last() == (Kind::SourceFile, 0usize));
    }
    let ghost leaves = sink.tree().items();
    let ghost flagged = sink.flagged();
    sink.finish_node();
    let (root, errors) = sink.finish();
    proof {
        lemma_placed_items(root.children@, leaves);
        let tokens = tokens_from(input, 0, false);
        assert forall|i: int| 0 <= i < tokens.len() implies ((#[trigger] root.children@[i]) matches NodeOrToken::Token(
            t,
        ) && t.kind == tokens[i].kind && encode_utf8(smol_chars(t.text)).len() == tokens[i].len) by {
            assert(leaves[i] is Token);
        }
    }
    (root, errors)
}

} // verus!
