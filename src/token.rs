use vstd::prelude::*;
use std::collections::HashMap;
use std::collections::VecDeque;
use crate::loops::{balanced, depth, depth_delta, has_dangling_end, is_match, loop_error, loop_index, MalformedProgram};

verus! {

broadcast use vstd::std_specs::hash::group_hash_axioms;

/// One decoded instruction.
#[derive(Clone, Copy, Debug, PartialEq, Eq, Structural)]
pub enum Token {
    Inc,
    Dec,
    IncPtr,
    DecPtr,
    StartLoop,
    EndLoop,
    Input,
    Output,
}

/// The instruction a source character stands for, if any.
pub open spec fn token_of(c: char) -> Option<Token> {
    if c == '+' {
        Some(Token::Inc)
    } else if c == '-' {
        Some(Token::Dec)
    } else if c == '>' {
        Some(Token::IncPtr)
    } else if c == '<' {
        Some(Token::DecPtr)
    } else if c == '[' {
        Some(Token::StartLoop)
    } else if c == ']' {
        Some(Token::EndLoop)
    } else if c == ',' {
        Some(Token::Input)
    } else if c == '.' {
        Some(Token::Output)
    } else {
        None
    }
}

/// Whether a character belongs to the instruction alphabet.
pub open spec fn is_instruction_char(c: char) -> bool {
    token_of(c) is Some
}

/// The instruction sequence of a source text: every recognised character
/// in order, everything else dropped.
pub open spec fn lex(s: Seq<char>) -> Seq<Token>
    decreases s.len(),
{
    if s.len() == 0 {
        Seq::empty()
    } else {
        let rest = lex(s.drop_last());
        match token_of(s.last()) {
            Some(t) => rest.push(t),
            None => rest,
        }
    }
}

/// A cell after `+`: one more, with the largest value wrapping to zero.
pub open spec fn cell_inc(v: u32) -> u32 {
    if v == u32::MAX {
        0
    } else {
        (v + 1) as u32
    }
}

/// A cell after `-`: one less, with zero wrapping to the largest value.
pub open spec fn cell_dec(v: u32) -> u32 {
    if v == 0 {
        u32::MAX
    } else {
        (v - 1) as u32
    }
}

/// The tape cursor after `>`: one further, wrapping past the last cell to the first.
pub open spec fn ptr_inc(p: u16) -> u16 {
    if p == u16::MAX {
        0
    } else {
        (p + 1) as u16
    }
}

/// The tape cursor after `<`: one back, wrapping past the first cell to the last.
pub open spec fn ptr_dec(p: u16) -> u16 {
    if p == 0 {
        u16::MAX
    } else {
        (p - 1) as u16
    }
}

/// The instruction sequence has exactly one instruction for each character
/// of the source that belongs to the instruction alphabet.
pub proof fn lemma_lex_len(s: Seq<char>)
    ensures
        lex(s).len() == s.filter(|c: char| is_instruction_char(c)).len(),
    decreases s.len(),
{
    reveal(Seq::filter);
    if s.len() > 0 {
        lemma_lex_len(s.drop_last());
    }
}

/// Relies on `String::push`: appends one character to the end of the string.
#[verifier::external_body]
fn push_char(s: &mut String, c: char)
    ensures
        final(s)@ == old(s)@.push(c),
{
    s.push(c);
}

impl Token {
    fn tokenize(c: char) -> (r: Option<Token>)
        ensures
            r == token_of(c),
    {
        match c {
            '+' => Some(Token::Inc),
            '-' => Some(Token::Dec),
            '>' => Some(Token::IncPtr),
            '<' => Some(Token::DecPtr),
            '[' => Some(Token::StartLoop),
            ']' => Some(Token::EndLoop),
            ',' => Some(Token::Input),
            '.' => Some(Token::Output),
            _ => None,
        }
    }

    /// Reduces source characters to the instruction sequence.
    pub fn tokenize_from_array(char_array: Vec<char>) -> (r: Vec<Token>)
        ensures
            r@ == lex(char_array@),
    {
        let mut token_array: Vec<Token> = Vec::new();
        let mut i: usize = 0;
        while i < char_array.len()
            invariant
                i <= char_array.len(),
                token_array@ == lex(char_array@.subrange(0, i as int)),
            decreases char_array.len() - i,
        {
            let c = char_array[i];
            proof {
                let pre = char_array@.subrange(0, i as int + 1);
                assert(pre.drop_last() =~= char_array@.subrange(0, i as int));
                assert(pre.last() == c);
            }
            if let Some(token) = Token::tokenize(c) {
                token_array.push(token);
            }
            i = i + 1;
        }
        assert(char_array@.subrange(0, i as int) =~= char_array@);
        token_array
    }
    /// Pairs every loop start with its loop end in one pass with a stack of
    /// open loop starts. Fails when a `]` has no open `[`, or when some `[`
    /// is still open at the end.
    pub fn get_loop_token_ptr(token_array: &Vec<Token>) -> (r: Result<
        (HashMap<u32, u32>, HashMap<u32, u32>),
        MalformedProgram,
    >)
        requires
            token_array.len() <= u32::MAX,
        ensures
            r is Ok <==> balanced(token_array@),
            r matches Err(e) ==> e == loop_error(token_array@),
            r matches Ok((se, ee)) ==> loop_index(token_array@, se@, ee@),
    {
        let ghost code = token_array@;
        let mut start_end_map: HashMap<u32, u32> = HashMap::new();
        let mut end_start_map: HashMap<u32, u32> = HashMap::new();
        let mut start_ptr_stack: Vec<u32> = Vec::new();
        let mut ptr: u32 = 0;
        while (ptr as usize) < token_array.len()
            invariant
                code == token_array@,
                code.len() <= u32::MAX,
                ptr <= code.len(),
                forall|k: int| 0 <= k <= ptr ==> #[trigger] depth(code, k) >= 0,
                start_ptr_stack@.len() == depth(code, ptr as int),
                forall|d: int|
                    0 <= d < start_ptr_stack@.len() ==> {
                        let s = #[trigger] start_ptr_stack@[d];
                        &&& s < ptr
                        &&& code[s as int] == Token::StartLoop
                        &&& depth(code, s as int) == d
                        &&& !start_end_map@.contains_key(s)
                    },
                forall|d: int, k: int|
                    #![trigger start_ptr_stack@[d], depth(code, k)]
                    0 <= d < start_ptr_stack@.len() && start_ptr_stack@[d] < k <= ptr
                        ==> depth(code, k) > d,
                forall|a: u32| #[trigger]
                    start_end_map@.contains_key(a) ==> a < ptr && start_end_map@[a] < ptr
                        && is_match(code, a as int, start_end_map@[a] as int),
                forall|b: u32| #[trigger]
                    end_start_map@.contains_key(b) ==> b < ptr && is_match(
                        code,
                        end_start_map@[b] as int,
                        b as int,
                    ),
                forall|b: u32|
                    b < ptr && code[b as int] == Token::EndLoop ==> #[trigger]
                    end_start_map@.contains_key(b),
                forall|a: u32|
                    a < ptr && code[a as int] == Token::StartLoop ==> #[trigger]
                    start_end_map@.contains_key(a) || exists|d: int|
                        0 <= d < start_ptr_stack@.len() && start_ptr_stack@[d] == a,
            decreases code.len() - ptr,
        {
            let token = token_array[ptr as usize];
            let ghost old_stack = start_ptr_stack@;
            let ghost old_se = start_end_map@;
            assert(depth(code, ptr + 1) == depth(code, ptr as int) + depth_delta(token));
            match token {
                Token::StartLoop => {
                    start_ptr_stack.push(ptr);
                    assert forall|a: u32|
                        a < ptr + 1 && code[a as int] == Token::StartLoop implies #[trigger]
                        start_end_map@.contains_key(a) || exists|d: int|
                            0 <= d < start_ptr_stack@.len() && start_ptr_stack@[d] == a by {
                        if a == ptr {
                            assert(start_ptr_stack@[old_stack.len() as int] == a);
                        } else if !start_end_map@.contains_key(a) {
                            let d = choose|d: int| 0 <= d < old_stack.len() && old_stack[d] == a;
                            assert(start_ptr_stack@[d] == a);
                        }
                    }
                },
                Token::EndLoop => {
                    if let Some(start_ptr) = start_ptr_stack.pop() {
                        assert(is_match(code, start_ptr as int, ptr as int));
                        start_end_map.insert(start_ptr, ptr);
                        end_start_map.insert(ptr, start_ptr);
                        assert forall|a: u32|
                            a < ptr + 1 && code[a as int] == Token::StartLoop implies #[trigger]
                            start_end_map@.contains_key(a) || exists|d: int|
                                0 <= d < start_ptr_stack@.len() && start_ptr_stack@[d] == a by {
                            if a != start_ptr && !old_se.contains_key(a) {
                                let d = choose|d: int|
                                    0 <= d < old_stack.len() && old_stack[d] == a;
                                assert(d != old_stack.len() - 1);
                                assert(start_ptr_stack@[d] == a);
                            }
                        }
                    } else {
                        assert(depth(code, ptr + 1) < 0);
                        return Err(MalformedProgram::DanglingLoopEnd);
                    }
                },
                _ => {},
            }
            ptr = ptr + 1;
        }
        if start_ptr_stack.len() > 0 {
            return Err(MalformedProgram::DanglingLoopStart);
        }
        Ok((start_end_map, end_start_map))
    }
    /// `+`: increments the cell at `memory_ptr`, wrapping at the cell width.
    /// A cursor past the end of `memory` changes nothing.
    pub fn inc_mem_val(memory: &mut Vec<u32>, memory_ptr: u16)
        ensures
            final(memory)@ == if (memory_ptr as int) < old(memory)@.len() {
                old(memory)@.update(memory_ptr as int, cell_inc(old(memory)@[memory_ptr as int]))
            } else {
                old(memory)@
            },
    {
        let i = memory_ptr as usize;
        if i < memory.len() {
            let v = memory[i];
            memory[i] = v.wrapping_add(1);
        }
    }

    /// `-`: decrements the cell at `memory_ptr`, wrapping at the cell width.
    /// A cursor past the end of `memory` changes nothing.
    pub fn dec_mem_val(memory: &mut Vec<u32>, memory_ptr: u16)
        ensures
            final(memory)@ == if (memory_ptr as int) < old(memory)@.len() {
                old(memory)@.update(memory_ptr as int, cell_dec(old(memory)@[memory_ptr as int]))
            } else {
                old(memory)@
            },
    {
        let i = memory_ptr as usize;
        if i < memory.len() {
            let v = memory[i];
            memory[i] = v.wrapping_sub(1);
        }
    }

    /// `>`: moves the tape cursor one cell forward, wrapping at its width.
    pub fn inc_mem_ptr(memory_ptr: &mut u16)
        ensures
            *final(memory_ptr) == ptr_inc(*old(memory_ptr)),
    {
        *memory_ptr = memory_ptr.wrapping_add(1);
    }

    /// `<`: moves the tape cursor one cell back, wrapping at its width.
    pub fn dec_mem_ptr(memory_ptr: &mut u16)
        ensures
            *final(memory_ptr) == ptr_dec(*old(memory_ptr)),
    {
        *memory_ptr = memory_ptr.wrapping_sub(1);
    }

    /// `[`: when the current cell is zero, moves the instruction cursor to the
    /// matching loop end; otherwise, or with no cell, leaves it.
    pub fn jump_loop_end_token_if_mem_0(
        mem_val: Option<&u32>,
        loop_start_end_token_ptr_map: &HashMap<u32, u32>,
        token_ptr: &mut u32,
    )
        requires
            mem_val == Some(&0u32) ==> loop_start_end_token_ptr_map@.contains_key(
                *old(token_ptr),
            ),
        ensures
            *final(token_ptr) == if mem_val == Some(&0u32) {
                loop_start_end_token_ptr_map@[*old(token_ptr)]
            } else {
                *old(token_ptr)
            },
    {
        if let Some(val) = mem_val {
            if *val != 0 {
                return ;
            }
        } else {
            return ;
        }
        if let Some(end_ptr) = loop_start_end_token_ptr_map.get(token_ptr) {
            *token_ptr = *end_ptr;
        }
    }

    /// `]`: when the current cell is not zero, moves the instruction cursor to
    /// the matching loop start; otherwise, or with no cell, leaves it.
    pub fn jump_loop_start_token_if_mem_not_0(
        mem_val: Option<&u32>,
        loop_end_start_token_ptr_map: &HashMap<u32, u32>,
        token_ptr: &mut u32,
    )
        requires
            (mem_val matches Some(v) && *v != 0) ==> loop_end_start_token_ptr_map@.contains_key(
                *old(token_ptr),
            ),
        ensures
            *final(token_ptr) == if mem_val matches Some(v) && *v != 0 {
                loop_end_start_token_ptr_map@[*old(token_ptr)]
            } else {
                *old(token_ptr)
            },
    {
        if let Some(val) = mem_val {
            if *val == 0 {
                return ;
            }
        } else {
            return ;
        }
        if let Some(start_ptr) = loop_end_start_token_ptr_map.get(token_ptr) {
            *token_ptr = *start_ptr;
        }
    }

    /// `,`: takes the first input character, if any, and stores its code point
    /// in the cell at `memory_ptr`. With no input left, or a cursor past the
    /// end of `memory`, nothing changes.
    pub fn put_char_from_input_to_mem(
        input_char_array: &mut VecDeque<char>,
        memory: &mut Vec<u32>,
        memory_ptr: u16,
    )
        ensures
            if (memory_ptr as int) < old(memory)@.len() && old(input_char_array)@.len() > 0 {
                &&& final(memory)@ == old(memory)@.update(
                    memory_ptr as int,
                    old(input_char_array)@[0] as u32,
                )
                &&& final(input_char_array)@ == old(input_char_array)@.drop_first()
            } else {
                &&& final(memory)@ == old(memory)@
                &&& final(input_char_array)@ == old(input_char_array)@
            },
    {
        let i = memory_ptr as usize;
        if i < memory.len() {
            if let Some(c) = input_char_array.pop_front() {
                memory[i] = c as u32;
            }
        }
    }

    /// `.`: appends the character, if any, to the output.
    pub fn join_output_char_to_str(output_char: Option<char>, output_str: &mut String)
        ensures
            final(output_str)@ == match output_char {
                Some(c) => old(output_str)@.push(c),
                None => old(output_str)@,
            },
    {
        if let Some(c) = output_char {
            push_char(output_str, c);
        }
    }
}

} // verus!
