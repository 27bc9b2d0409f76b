use std::collections::HashMap;
use std::collections::VecDeque;

use brainfxxk::loops::MalformedProgram;
use brainfxxk::token::Token;

#[test]
fn tokenize_keeps_only_instruction_characters() {
    let chars: Vec<char> = "a+b-c>d<e[f]g,h.i \n".chars().collect();
    let tokens = Token::tokenize_from_array(chars);
    assert_eq!(
        tokens,
        vec![
            Token::Inc,
            Token::Dec,
            Token::IncPtr,
            Token::DecPtr,
            Token::StartLoop,
            Token::EndLoop,
            Token::Input,
            Token::Output
        ]
    );
}

#[test]
fn tokenize_length_counts_recognised_characters() {
    let src = "hello + world [ - ] .";
    let expected = src.chars().filter(|c| "+-<>[],.".contains(*c)).count();
    let tokens = Token::tokenize_from_array(src.chars().collect());
    assert_eq!(tokens.len(), expected);
    assert_eq!(tokens.len(), 5);
    assert!(Token::tokenize_from_array(Vec::new()).is_empty());
}

#[test]
fn loop_pairs_are_mutual_inverses() {
    let tokens = Token::tokenize_from_array("+[>[-]<[+]]".chars().collect());
    let (se, es) = Token::get_loop_token_ptr(&tokens).unwrap();
    assert_eq!(se.len(), 3);
    assert_eq!(es.len(), 3);
    assert_eq!(se.get(&1), Some(&10));
    assert_eq!(se.get(&3), Some(&5));
    assert_eq!(se.get(&7), Some(&9));
    for (start, end) in se.iter() {
        assert_eq!(es.get(end), Some(start));
    }
}

#[test]
fn loop_pairing_errors() {
    let end = Token::tokenize_from_array(vec![']']);
    assert_eq!(Token::get_loop_token_ptr(&end).err(), Some(MalformedProgram::DanglingLoopEnd));
    let start = Token::tokenize_from_array(vec!['[']);
    assert_eq!(Token::get_loop_token_ptr(&start).err(), Some(MalformedProgram::DanglingLoopStart));
}

#[test]
fn increment_at_max_wraps_to_zero() {
    let mut memory: Vec<u32> = vec![u32::MAX, 7];
    Token::inc_mem_val(&mut memory, 0);
    assert_eq!(memory, vec![0, 7]);
    Token::inc_mem_val(&mut memory, 1);
    assert_eq!(memory, vec![0, 8]);
}

#[test]
fn decrement_at_zero_wraps_to_max() {
    let mut memory: Vec<u32> = vec![0, 7];
    Token::dec_mem_val(&mut memory, 0);
    Token::dec_mem_val(&mut memory, 1);
    assert_eq!(memory, vec![u32::MAX, 6]);
}

#[test]
fn cell_ops_past_end_change_nothing() {
    let mut memory: Vec<u32> = vec![3];
    Token::inc_mem_val(&mut memory, 5);
    Token::dec_mem_val(&mut memory, 5);
    let mut input: VecDeque<char> = "z".chars().collect();
    Token::put_char_from_input_to_mem(&mut input, &mut memory, 5);
    assert_eq!(memory, vec![3]);
    assert_eq!(input.len(), 1);
}

#[test]
fn pointer_moves_wrap() {
    let mut p: u16 = u16::MAX;
    Token::inc_mem_ptr(&mut p);
    assert_eq!(p, 0);
    Token::dec_mem_ptr(&mut p);
    assert_eq!(p, u16::MAX);
    let mut q: u16 = 41;
    Token::inc_mem_ptr(&mut q);
    assert_eq!(q, 42);
}

#[test]
fn jump_forward_only_on_zero() {
    let mut map: HashMap<u32, u32> = HashMap::new();
    map.insert(2, 9);
    let mut ptr: u32 = 2;
    Token::jump_loop_end_token_if_mem_0(Some(&1), &map, &mut ptr);
    assert_eq!(ptr, 2);
    Token::jump_loop_end_token_if_mem_0(None, &map, &mut ptr);
    assert_eq!(ptr, 2);
    Token::jump_loop_end_token_if_mem_0(Some(&0), &map, &mut ptr);
    assert_eq!(ptr, 9);
}

#[test]
fn jump_back_only_on_nonzero() {
    let mut map: HashMap<u32, u32> = HashMap::new();
    map.insert(9, 2);
    let mut ptr: u32 = 9;
    Token::jump_loop_start_token_if_mem_not_0(Some(&0), &map, &mut ptr);
    assert_eq!(ptr, 9);
    Token::jump_loop_start_token_if_mem_not_0(Some(&3), &map, &mut ptr);
    assert_eq!(ptr, 2);
}

#[test]
fn input_fills_cell_and_is_consumed() {
    let mut memory: Vec<u32> = vec![0, 0];
    let mut input: VecDeque<char> = "Az".chars().collect();
    Token::put_char_from_input_to_mem(&mut input, &mut memory, 1);
    assert_eq!(memory, vec![0, 65]);
    assert_eq!(input, VecDeque::from(vec!['z']));
    let mut empty: VecDeque<char> = VecDeque::new();
    Token::put_char_from_input_to_mem(&mut empty, &mut memory, 1);
    assert_eq!(memory, vec![0, 65]);
}

#[test]
fn output_char_appended() {
    let mut out = String::from("ab");
    Token::join_output_char_to_str(Some('c'), &mut out);
    assert_eq!(out, "abc");
    Token::join_output_char_to_str(None, &mut out);
    assert_eq!(out, "abc");
}
