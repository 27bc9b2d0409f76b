use vstd::prelude::*;
use std::collections::HashMap;
use std::collections::VecDeque;
use crate::loops::{balanced, loop_error, loop_index, MalformedProgram};
use crate::token::{cell_dec, cell_inc, lex, ptr_dec, ptr_inc, Token};

verus! {

broadcast use vstd::std_specs::hash::group_hash_axioms;

/// Number of cells on the tape: one for every value of the 16-bit tape cursor,
/// so the cursor always addresses a cell.
pub const TAPE_LEN: usize = 65536;

/// The abstract machine: program, cursors, tape, pending input and output so far.
pub struct MachineState {
    pub code: Seq<Token>,
    pub pc: nat,
    pub tape: Seq<u32>,
    pub ptr: u16,
    pub input: Seq<char>,
    pub output: Seq<char>,
    pub start_to_end: Map<u32, u32>,
    pub end_to_start: Map<u32, u32>,
}

/// The character written for a cell value: the one with that code point, or
/// none when the value is not a Unicode scalar value.
pub open spec fn code_point_char(v: u32) -> Option<char> {
    if v <= 0xD7FF || (0xE000 <= v && v <= 0x10FFFF) {
        Some(v as char)
    } else {
        None
    }
}

/// The machine has run past the last instruction.
pub open spec fn halted(s: MachineState) -> bool {
    s.pc >= s.code.len()
}

/// The effect of one instruction, before the instruction cursor moves on.
pub open spec fn execute(s: MachineState, t: Token) -> MachineState {
    let p = s.ptr as int;
    let cell = s.tape[p];
    match t {
        Token::Inc => MachineState { tape: s.tape.update(p, cell_inc(cell)), ..s },
        Token::Dec => MachineState { tape: s.tape.update(p, cell_dec(cell)), ..s },
        Token::IncPtr => MachineState { ptr: ptr_inc(s.ptr), ..s },
        Token::DecPtr => MachineState { ptr: ptr_dec(s.ptr), ..s },
        Token::StartLoop => if cell == 0 {
            MachineState { pc: s.start_to_end[s.pc as u32] as nat, ..s }
        } else {
            s
        },
        Token::EndLoop => if cell != 0 {
            MachineState { pc: s.end_to_start[s.pc as u32] as nat, ..s }
        } else {
            s
        },
        Token::Input => if s.input.len() > 0 {
            MachineState {
                tape: s.tape.update(p, s.input[0] as u32),
                input: s.input.drop_first(),
                ..s
            }
        } else {
            s
        },
        Token::Output => match code_point_char(cell) {
            Some(c) => MachineState { output: s.output.push(c), ..s },
            None => s,
        },
    }
}

/// One fetch-execute cycle; a halted machine stays as it is.
pub open spec fn step(s: MachineState) -> MachineState {
    if halted(s) {
        s
    } else {
        let s2 = execute(s, s.code[s.pc as int]);
        MachineState { pc: s2.pc + 1, ..s2 }
    }
}

/// The machine after `n` cycles.
pub open spec fn run(s: MachineState, n: nat) -> MachineState
    decreases n,
{
    if n == 0 {
        s
    } else {
        run(step(s), (n - 1) as nat)
    }
}

/// A state the interpreter can be in: the program fits the 32-bit
/// instruction cursor, the cursor is within or just past the program, the
/// tape has its full length, and the loop index pairs the loop markers.
pub open spec fn machine_ok(s: MachineState) -> bool {
    &&& s.code.len() <= u32::MAX
    &&& s.pc <= s.code.len()
    &&& s.tape.len() == TAPE_LEN
    &&& loop_index(s.code, s.start_to_end, s.end_to_start)
}

/// Running `n + 1` cycles is running `n` and then one more.
pub proof fn lemma_run_step(s: MachineState, n: nat)
    ensures
        run(s, n + 1) == step(run(s, n)),
    decreases n,
{
    assert(run(s, n + 1) == run(step(s), n));
    if n > 0 {
        lemma_run_step(step(s), (n - 1) as nat);
        assert(run(s, n) == run(step(s), (n - 1) as nat));
    } else {
        assert(run(step(s), 0) == step(s));
    }
}

/// A cycle keeps the machine in a state the interpreter can be in.
pub proof fn lemma_step_ok(s: MachineState)
    requires
        machine_ok(s),
    ensures
        machine_ok(step(s)),
{
    if !halted(s) {
        let t = s.code[s.pc as int];
        let cell = s.tape[s.ptr as int];
        if t == Token::StartLoop && cell == 0 {
            assert(s.start_to_end.contains_key(s.pc as u32));
        } else if t == Token::EndLoop && cell != 0 {
            assert(s.end_to_start.contains_key(s.pc as u32));
        }
    }
}

/// Reading the output twice with no run in between gives the same text: it
/// is a function of the interpreter's state alone.
pub proof fn lemma_output_repeatable(bf: &BfInterpreter, first: Seq<char>, second: Seq<char>)
    requires
        first == bf@.output,
        second == bf@.output,
    ensures
        first == second,
{
}

/// Relies on `char::from_u32`: the character with the given code point, or
/// `None` for a surrogate or a value past `0x10FFFF`.
#[verifier::external_body]
fn char_from_code_point(v: u32) -> (r: Option<char>)
    ensures
        r == code_point_char(v),
{
    char::from_u32(v)
}

/// An interpreter for one program and one input.
pub struct BfInterpreter {
    token_array: Vec<Token>,
    token_ptr: u32,
    memory: Vec<u32>,
    memory_ptr: u16,
    input: VecDeque<char>,
    output: String,
    loop_start_end_token_ptr_map: HashMap<u32, u32>,
    loop_end_start_token_ptr_map: HashMap<u32, u32>,
}

impl View for BfInterpreter {
    type V = MachineState;

    closed spec fn view(&self) -> MachineState {
        MachineState {
            code: self.token_array@,
            pc: self.token_ptr as nat,
            tape: self.memory@,
            ptr: self.memory_ptr,
            input: self.input@,
            output: self.output@,
            start_to_end: self.loop_start_end_token_ptr_map@,
            end_to_start: self.loop_end_start_token_ptr_map@,
        }
    }
}

impl BfInterpreter {
    /// The interpreter's state is one the machine can be in.
    pub open spec fn wf(&self) -> bool {
        machine_ok(self@)
    }

    /// Runs one instruction.
    fn step(&mut self)
        requires
            old(self).wf(),
            !halted(old(self)@),
        ensures
            final(self).wf(),
            final(self)@ == step(old(self)@),
    {
        proof {
            lemma_step_ok(self@);
        }
        let p = self.memory_ptr as usize;
        let token = self.token_array[self.token_ptr as usize];
        match token {
            Token::Inc => {
                Token::inc_mem_val(&mut self.memory, self.memory_ptr);
            },
            Token::Dec => {
                Token::dec_mem_val(&mut self.memory, self.memory_ptr);
            },
            Token::IncPtr => {
                Token::inc_mem_ptr(&mut self.memory_ptr);
            },
            Token::DecPtr => {
                Token::dec_mem_ptr(&mut self.memory_ptr);
            },
            Token::StartLoop => {
                Token::jump_loop_end_token_if_mem_0(
                    Some(&self.memory[p]),
                    &self.loop_start_end_token_ptr_map,
                    &mut self.token_ptr,
                );
            },
            Token::EndLoop => {
                Token::jump_loop_start_token_if_mem_not_0(
                    Some(&self.memory[p]),
                    &self.loop_end_start_token_ptr_map,
                    &mut self.token_ptr,
                );
            },
            Token::Input => {
                Token::put_char_from_input_to_mem(&mut self.input, &mut self.memory, self.memory_ptr);
            },
            Token::Output => {
                let v = self.memory[p];
                Token::join_output_char_to_str(char_from_code_point(v), &mut self.output);
            },
        }
        self.token_ptr = self.token_ptr + 1;
    }

    /// Builds an interpreter for `src` with `input` waiting to be read. The
    /// source is reduced to instructions and its loop markers are paired
    /// before anything runs; unbalanced markers are refused.
    pub fn new(src: &str, input: &str) -> (r: Result<BfInterpreter, MalformedProgram>)
        requires
            lex(src@).len() <= u32::MAX,
        ensures
            r is Ok <==> balanced(lex(src@)),
            r matches Err(e) ==> e == loop_error(lex(src@)),
            r matches Ok(bf) ==> {
                &&& bf.wf()
                &&& bf@.code == lex(src@)
                &&& bf@.pc == 0
                &&& bf@.tape == Seq::new(TAPE_LEN as nat, |i: int| 0u32)
                &&& bf@.ptr == 0
                &&& bf@.input == input@
                &&& bf@.output == Seq::<char>::empty()
            },
    {
        let mut chars: Vec<char> = Vec::new();
        for c in it: src.chars()
            invariant
                chars@ == it.seq().subrange(0, it.index() as int),
        {
            chars.push(c);
        }
        assert(chars@ =~= src@);
        let ta = Token::tokenize_from_array(chars);
        let (lsetpm, lestpm) = match Token::get_loop_token_ptr(&ta) {
            Ok(maps) => maps,
            Err(e) => {
                return Err(e);
            },
        };
        let mut queue: VecDeque<char> = VecDeque::new();
        for c in it: input.chars()
            invariant
                queue@ == it.seq().subrange(0, it.index() as int),
        {
            queue.push_back(c);
        }
        assert(queue@ =~= input@);
        let memory: Vec<u32> = vec![0u32; TAPE_LEN];
        let bf = BfInterpreter {
            token_array: ta,
            token_ptr: 0,
            memory,
            memory_ptr: 0,
            input: queue,
            output: String::new(),
            loop_start_end_token_ptr_map: lsetpm,
            loop_end_start_token_ptr_map: lestpm,
        };
        assert(bf@.tape =~= Seq::new(TAPE_LEN as nat, |i: int| 0u32));
        assert(bf@.input =~= input@);
        Ok(bf)
    }

    /// Runs at most `max_steps` instructions, stopping as soon as the
    /// instruction cursor is past the end of the program. Returns how many
    /// instructions ran.
    pub fn run_steps(&mut self, max_steps: u64) -> (taken: u64)
        requires
            old(self).wf(),
        ensures
            final(self).wf(),
            taken <= max_steps,
            final(self)@ == run(old(self)@, taken as nat),
            halted(final(self)@) || taken == max_steps,
            forall|n: nat| n < taken ==> !halted(#[trigger] run(old(self)@, n)),
    {
        let ghost start = self@;
        let mut taken: u64 = 0;
        while taken < max_steps && (self.token_ptr as usize) < self.token_array.len()
            invariant
                self.wf(),
                taken <= max_steps,
                self@ == run(start, taken as nat),
                forall|n: nat| n < taken ==> !halted(#[trigger] run(start, n)),
            decreases max_steps - taken,
        {
            proof {
                lemma_run_step(start, taken as nat);
            }
            self.step();
            taken = taken + 1;
        }
        taken
    }

    /// Runs the program until the instruction cursor is past its end. A
    /// program that loops forever is stopped after `u64::MAX` instructions,
    /// far beyond any run that can finish.
    pub fn exec(&mut self)
        requires
            old(self).wf(),
        ensures
            final(self).wf(),
            exists|n: nat|
                n <= u64::MAX && final(self)@ == #[trigger] run(old(self)@, n) && (halted(
                    final(self)@,
                ) || n == u64::MAX),
    {
        let taken = self.run_steps(u64::MAX);
        assert(self@ == run(old(self)@, taken as nat));
    }

    /// The output written so far.
    pub fn output(&self) -> (r: &str)
        ensures
            r@ == self@.output,
    {
        self.output.as_str()
    }
}

} // verus!
