use vstd::prelude::*;
use crate::token::Token;

verus! {

/// Why a program's loop markers cannot be paired.
#[derive(Clone, Copy, Debug, PartialEq, Eq, Structural)]
pub enum MalformedProgram {
    /// A `]` appears with no open `[` before it.
    DanglingLoopEnd,
    /// Some `[` is never closed.
    DanglingLoopStart,
}

/// Change of nesting depth caused by one instruction.
pub open spec fn depth_delta(t: Token) -> int {
    match t {
        Token::StartLoop => 1,
        Token::EndLoop => -1,
        _ => 0,
    }
}

/// Nesting depth after the first `n` instructions: opened loops minus closed ones.
pub open spec fn depth(code: Seq<Token>, n: int) -> int
    decreases n,
{
    if n <= 0 {
        0
    } else {
        depth(code, n - 1) + depth_delta(code[n - 1])
    }
}

/// Some prefix of the program closes more loops than it opened.
pub open spec fn has_dangling_end(code: Seq<Token>) -> bool {
    exists|k: int| 0 <= k <= code.len() && #[trigger] depth(code, k) < 0
}

/// Loop markers nest like matched parentheses.
pub open spec fn balanced(code: Seq<Token>) -> bool {
    &&& forall|k: int| 0 <= k <= code.len() ==> #[trigger] depth(code, k) >= 0
    &&& depth(code, code.len() as int) == 0
}

/// The error that pairing reports for an unbalanced program.
pub open spec fn loop_error(code: Seq<Token>) -> MalformedProgram {
    if has_dangling_end(code) {
        MalformedProgram::DanglingLoopEnd
    } else {
        MalformedProgram::DanglingLoopStart
    }
}

/// The `]` at `j` closes the `[` at `i`: the depth after `i` stays above the
/// depth before `i` up to and including `j`, and `j` brings it back down.
pub open spec fn is_match(code: Seq<Token>, i: int, j: int) -> bool {
    &&& 0 <= i < j < code.len()
    &&& code[i] == Token::StartLoop
    &&& code[j] == Token::EndLoop
    &&& depth(code, j) == depth(code, i) + 1
    &&& forall|k: int| i < k <= j ==> #[trigger] depth(code, k) > depth(code, i)
}

/// `start_to_end` and `end_to_start` pair every loop marker of `code` with its
/// partner, and hold nothing else.
pub open spec fn loop_index(
    code: Seq<Token>,
    start_to_end: Map<u32, u32>,
    end_to_start: Map<u32, u32>,
) -> bool {
    &&& forall|a: u32|
        #[trigger] start_to_end.contains_key(a) <==> (a < code.len() && code[a as int]
            == Token::StartLoop)
    &&& forall|b: u32|
        #[trigger] end_to_start.contains_key(b) <==> (b < code.len() && code[b as int]
            == Token::EndLoop)
    &&& forall|a: u32| #[trigger]
        start_to_end.contains_key(a) ==> is_match(code, a as int, start_to_end[a] as int)
    &&& forall|b: u32| #[trigger]
        end_to_start.contains_key(b) ==> is_match(code, end_to_start[b] as int, b as int)
}

/// How many times the instruction `t` occurs in `code`.
pub open spec fn count_token(code: Seq<Token>, t: Token) -> nat {
    code.filter(|u: Token| u == t).len()
}

/// The depth after a prefix is its number of loop starts minus its number of
/// loop ends.
pub proof fn lemma_depth_counts(code: Seq<Token>, n: int)
    requires
        0 <= n <= code.len(),
    ensures
        depth(code, n) == count_token(code.subrange(0, n), Token::StartLoop) - count_token(
            code.subrange(0, n),
            Token::EndLoop,
        ),
    decreases n,
{
    reveal(Seq::filter);
    let pre = code.subrange(0, n);
    if n > 0 {
        lemma_depth_counts(code, n - 1);
        assert(pre.drop_last() =~= code.subrange(0, n - 1));
        assert(pre.last() == code[n - 1]);
    } else {
        assert(pre.len() == 0);
    }
}

/// A program with one more loop end than loop starts is refused, and the
/// refusal names a dangling loop end.
pub proof fn lemma_extra_loop_end_refused(code: Seq<Token>)
    requires
        count_token(code, Token::EndLoop) == count_token(code, Token::StartLoop) + 1,
    ensures
        !balanced(code),
        loop_error(code) == MalformedProgram::DanglingLoopEnd,
{
    lemma_depth_counts(code, code.len() as int);
    assert(code.subrange(0, code.len() as int) =~= code);
    assert(depth(code, code.len() as int) < 0);
}

/// A program with one more loop start than loop ends, none of whose prefixes
/// closes more loops than it opened, is refused, and the refusal names a
/// dangling loop start.
pub proof fn lemma_extra_loop_start_refused(code: Seq<Token>)
    requires
        count_token(code, Token::StartLoop) == count_token(code, Token::EndLoop) + 1,
        !has_dangling_end(code),
    ensures
        !balanced(code),
        loop_error(code) == MalformedProgram::DanglingLoopStart,
{
    lemma_depth_counts(code, code.len() as int);
    assert(code.subrange(0, code.len() as int) =~= code);
}

/// A loop end has at most one partner.
pub proof fn lemma_match_unique_start(code: Seq<Token>, i1: int, i2: int, j: int)
    requires
        is_match(code, i1, j),
        is_match(code, i2, j),
    ensures
        i1 == i2,
{
    if i1 < i2 {
        assert(depth(code, i2) > depth(code, i1));
    } else if i2 < i1 {
        assert(depth(code, i1) > depth(code, i2));
    }
}

/// A loop start has at most one partner.
pub proof fn lemma_match_unique_end(code: Seq<Token>, i: int, j1: int, j2: int)
    requires
        is_match(code, i, j1),
        is_match(code, i, j2),
    ensures
        j1 == j2,
{
    if j1 < j2 {
        assert(depth(code, j1 + 1) > depth(code, i));
    } else if j2 < j1 {
        assert(depth(code, j2 + 1) > depth(code, i));
    }
}

/// For a program whose loops nest properly, following a loop start to its
/// end and back leads to the same loop start, and the other way round.
pub proof fn lemma_loop_index_inverse(
    code: Seq<Token>,
    start_to_end: Map<u32, u32>,
    end_to_start: Map<u32, u32>,
)
    requires
        balanced(code),
        loop_index(code, start_to_end, end_to_start),
    ensures
        forall|a: u32| #[trigger]
            start_to_end.contains_key(a) ==> end_to_start.contains_key(start_to_end[a])
                && end_to_start[start_to_end[a]] == a,
        forall|b: u32| #[trigger]
            end_to_start.contains_key(b) ==> start_to_end.contains_key(end_to_start[b])
                && start_to_end[end_to_start[b]] == b,
{
    assert forall|a: u32| #[trigger] start_to_end.contains_key(a) implies end_to_start.contains_key(
        start_to_end[a],
    ) && end_to_start[start_to_end[a]] == a by {
        let b = start_to_end[a];
        assert(is_match(code, a as int, b as int));
        assert(end_to_start.contains_key(b));
        lemma_match_unique_start(code, end_to_start[b] as int, a as int, b as int);
    }
    assert forall|b: u32| #[trigger] end_to_start.contains_key(b) implies start_to_end.contains_key(
        end_to_start[b],
    ) && start_to_end[end_to_start[b]] == b by {
        let a = end_to_start[b];
        assert(is_match(code, a as int, b as int));
        assert(start_to_end.contains_key(a));
        lemma_match_unique_end(code, a as int, start_to_end[a] as int, b as int);
    }
}

} // verus!
