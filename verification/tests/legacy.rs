use std::collections::VecDeque;
use wasm::bytecode::{parse_instructions, InstructionParser};
use wasm::parser::{DecodeError, DecodeErrorKind};
use wasm::repr::{ExprBytes, FuncIdx, Inst, IntBinop, LocalIdx};
use wasm::scripts::{
    read_script, run_script, to_command, tokens_to_tree, CommandKind, ParseError, ScriptError, Tree,
};
use wasm::text::token::{Token as Lexeme, TokenizeError as LexError};
use wasm::wat::{tokenize_script, Class, GostyleTokenizer, Token, TokenizeError, Tokenizer};

#[test]
fn flat_instructions_are_decoded() {
    let bytes = ExprBytes(vec![0x20, 0x00, 0x41, 0x7F, 0x6a, 0x10, 0x03, 0x1a, 0x0B, 0x01]);
    let is = parse_instructions(&bytes).unwrap();
    assert!(matches!(
        is.as_slice(),
        [
            Inst::LocalGet(LocalIdx(0)),
            Inst::I32Const(-1),
            Inst::I32Binary(IntBinop::Add),
            Inst::Call(FuncIdx(3)),
            Inst::Drop
        ]
    ));
    let bytes = ExprBytes(vec![0x01, 0x01]);
    assert_eq!(parse_instructions(&bytes).unwrap().len(), 2);
    let bytes = ExprBytes(vec![0x01, 0xFE]);
    assert_eq!(
        parse_instructions(&bytes).unwrap_err(),
        DecodeError { kind: DecodeErrorKind::UnknownOpcode(0xFE), offset: 1 }
    );
}

#[test]
fn instruction_parser_reads_numbers() {
    let bytes = [0x10, 0xE5, 0x8E, 0x26, 0x7F];
    let mut parser = InstructionParser::new(&bytes);
    assert_eq!(parser.parse_opcode(), Some(0x10));
    assert_eq!(parser.parse_funcidx(), Ok(FuncIdx(624485)));
    assert_eq!(parser.parse_i32(), Ok(-1));
    assert_eq!(parser.parse_opcode(), None);
    assert_eq!(
        parser.parse_byte(),
        Err(DecodeError { kind: DecodeErrorKind::UnexpectedEof, offset: 5 })
    );
    let mut parser = InstructionParser::new(&[0x05]);
    assert_eq!(parser.parse_localidx(), Ok(LocalIdx(5)));
}

#[test]
fn the_second_tokenizer_keeps_numbers_as_text() {
    let tokens = tokenize_script("(func $f \"a\\nb\" -1.5 0x10 ;; c\n)").unwrap();
    assert_eq!(
        tokens,
        vec![
            Token::LeftParen,
            Token::Atom("func".to_string()),
            Token::Name("f".to_string()),
            Token::Text("a\nb".to_string()),
            Token::Number("-1.5".to_string()),
            Token::Number("0x10".to_string()),
            Token::Comment(" c".to_string()),
            Token::RightParen,
        ]
    );
    assert_eq!(tokenize_script("a = b"), Err(TokenizeError::UnexpectedNextChar(b'=')));
    assert_eq!(tokenize_script("\"\\ff\""), Err(TokenizeError::UnknownError));
    assert_eq!(tokenize_script("#"), Err(TokenizeError::FailedExpectedToken));
}

#[test]
fn the_second_tokenizer_reads_token_by_token() {
    let mut tokenizer = Tokenizer { input: b"  ( $x 12)" };
    assert_eq!(tokenizer.next_token(), Ok(Some(Token::LeftParen)));
    assert_eq!(tokenizer.try_atom(), Err(TokenizeError::FailedExpectedToken));
    tokenizer.skip_whitespace();
    assert_eq!(tokenizer.try_name(), Ok(Token::Name("x".to_string())));
    tokenizer.skip_whitespace();
    assert_eq!(tokenizer.try_number(), Ok(Token::Number("12".to_string())));
    assert_eq!(tokenizer.try_left_paren(), Err(TokenizeError::FailedExpectedToken));
    assert_eq!(tokenizer.try_right_paren(), Ok(Token::RightParen));
    assert_eq!(tokenizer.next_token(), Ok(None));
    let mut tokenizer = Tokenizer { input: b"abc\"s\";;c" };
    assert_eq!(tokenizer.expect("ab"), Ok(()));
    assert_eq!(tokenizer.expect("x"), Err(TokenizeError::FailedExpectedToken));
    assert_eq!(tokenizer.try_atom(), Ok(Token::Atom("c".to_string())));
    assert_eq!(tokenizer.try_string(), Ok(Token::Text("s".to_string())));
    assert_eq!(tokenizer.try_comment(), Ok(Token::Comment("c".to_string())));
}

#[test]
fn the_cursor_cuts_tokens_off() {
    let mut cursor = GostyleTokenizer { input: b"$ab.c+1 -0x1_0.5e3 x", pos: 0 };
    assert_eq!(cursor.expectName(), Ok(()));
    assert_eq!(cursor.emit(), b"$ab.c+1");
    assert_eq!(cursor.expectNumber(), Err(TokenizeError::FailedExpectedToken));
    assert!(cursor.acceptChar(b' '));
    cursor.skip();
    assert_eq!(cursor.expectNumber(), Ok(()));
    assert_eq!(cursor.emit(), b"-0x1_0.5e3");
    assert_eq!(cursor.current(), b" x");
    assert_eq!(cursor.expectChar(b'x'), Err(TokenizeError::FailedExpectedToken));
    assert!(cursor.accept(&[b'a', b' ']));
    assert!(!cursor.acceptDigit());
    assert!(cursor.acceptLetter());
    assert!(!cursor.acceptNameChar());
    assert_eq!(cursor.expect(&[b'x']), Err(TokenizeError::FailedExpectedToken));
    assert_eq!(cursor.pos, 2);
    cursor.accept_run(Class::Letter);
    assert_eq!(cursor.pos, 2);
}

#[test]
fn tokens_are_cut_into_forms() {
    let tokens = vec![
        Lexeme::LeftParen,
        Lexeme::Atom("invoke".to_string()),
        Lexeme::LeftParen,
        Lexeme::Nat(1),
        Lexeme::RightParen,
        Lexeme::RightParen,
        Lexeme::Nat(2),
    ];
    let mut trees = tokens_to_tree(tokens).unwrap();
    assert_eq!(trees.len(), 2);
    assert!(matches!(&trees[1], Tree::Single(Lexeme::Nat(2))));
    let (name, args) = to_command(trees.remove(0)).unwrap();
    assert_eq!(name, "invoke");
    assert_eq!(args.len(), 1);
    assert!(matches!(&args[0], Tree::List(items) if items.len() == 1));
    assert_eq!(to_command(trees.remove(0)).unwrap_err(), ParseError::UnexpectedToken);
    assert_eq!(to_command(Tree::List(VecDeque::new())).unwrap_err(), ParseError::UnexpectedEof);
    assert_eq!(tokens_to_tree(vec![Lexeme::RightParen]).unwrap_err(), ParseError::UnexpectedToken);
    assert_eq!(tokens_to_tree(vec![Lexeme::LeftParen]).unwrap_err(), ParseError::UnexpectedToken);
}

#[test]
fn scripts_are_lists_of_commands() {
    let script = "(module) ;; one\n (invoke \"f\") (assert_return (invoke \"f\") (i32.const 1))";
    assert_eq!(run_script(script), Ok(()));
    let kinds: Vec<CommandKind> = read_script(script).unwrap().into_iter().map(|c| c.0).collect();
    assert_eq!(
        kinds,
        vec![CommandKind::Module, CommandKind::Invoke, CommandKind::AssertReturn]
    );
    assert_eq!(run_script("(module) (frobnicate)"), Err(ScriptError::UnknownCommand));
    assert_eq!(run_script("(module) 1"), Err(ScriptError::Parsing(ParseError::UnexpectedToken)));
    assert_eq!(run_script("(module"), Err(ScriptError::Parsing(ParseError::UnexpectedToken)));
    assert_eq!(run_script("\"x"), Err(ScriptError::Tokenizing(LexError::UnexpectedEof)));
    assert_eq!(
        run_script("(register \"a\") (assert_trap) (assert_malformed) (assert_invalid) (assert_unlinkable) (assert_exhaustion)"),
        Ok(())
    );
}
