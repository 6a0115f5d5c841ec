//! Finding the end of a loop.
//!
//! A loop starts after a `[` and ends at the `]` that matches it. The match is
//! found by counting: the depth starts at one, each `[` adds one and each `]`
//! takes one away, and the loop ends at the `]` met at depth one. A loop that
//! is never closed runs to the end of the code.

use vstd::prelude::*;

verus! {

/// What a character does to the nesting depth.
pub open spec fn bracket_weight(c: char) -> int {
    if c == '[' {
        1
    } else if c == ']' {
        -1
    } else {
        0
    }
}

/// The index of the first `]` at or after `at` that is met at depth one, when
/// the depth at `at` is `depth`; the length of the code if there is none.
pub open spec fn closing_from(code: Seq<char>, at: int, depth: int) -> int
    decreases code.len() - at,
{
    if at < 0 || at >= code.len() {
        code.len() as int
    } else if code[at] == ']' && depth <= 1 {
        at
    } else {
        closing_from(code, at + 1, depth + bracket_weight(code[at]))
    }
}

/// Where the loop that starts at `start` ends: the index of its closing `]`,
/// or the length of the code.
pub open spec fn loop_end(code: Seq<char>, start: int) -> int {
    closing_from(code, start, 1)
}

/// The characters of the loop that starts at `start`, without its closing `]`.
pub open spec fn loop_body(code: Seq<char>, start: int) -> Seq<char> {
    code.subrange(start, loop_end(code, start))
}

/// The index at which the code goes on after the loop that starts at `start`.
pub open spec fn loop_exit(code: Seq<char>, start: int) -> int {
    if loop_end(code, start) < code.len() {
        loop_end(code, start) + 1
    } else {
        code.len() as int
    }
}

/// The nesting depth in front of index `at`, for a loop that starts at
/// `start`: one, and the weights of the characters from `start` up to `at`.
pub open spec fn depth_at(code: Seq<char>, start: int, at: int) -> int
    decreases at - start,
{
    if at <= start {
        1
    } else {
        depth_at(code, start, at - 1) + bracket_weight(code[at - 1])
    }
}

proof fn lemma_closing_from(code: Seq<char>, start: int, at: int)
    requires
        0 <= start <= at <= code.len(),
        forall|k: int| start <= k <= at ==> depth_at(code, start, k) >= 1,
    ensures
        ({
            let end = closing_from(code, at, depth_at(code, start, at));
            &&& at <= end <= code.len()
            &&& forall|k: int| start <= k <= end ==> depth_at(code, start, k) >= 1
            &&& end < code.len() ==> code[end] == ']' && depth_at(code, start, end + 1) == 0
        }),
    decreases code.len() - at,
{
    let depth = depth_at(code, start, at);
    if at < code.len() && !(code[at] == ']' && depth <= 1) {
        assert(depth_at(code, start, at + 1) == depth + bracket_weight(code[at]));
        lemma_closing_from(code, start, at + 1);
    }
}

/// The loop ends at the first index at which the depth falls to zero, and at
/// the end of the code if it never does.
pub proof fn lemma_loop_end(code: Seq<char>, start: int)
    requires
        0 <= start <= code.len(),
    ensures
        start <= loop_end(code, start) <= code.len(),
        forall|k: int| start <= k <= loop_end(code, start) ==> depth_at(code, start, k) >= 1,
        loop_end(code, start) < code.len() ==> code[loop_end(code, start)] == ']' && depth_at(
            code,
            start,
            loop_end(code, start) + 1,
        ) == 0,
{
    lemma_closing_from(code, start, start);
}

/// Reads the loop that starts at `start`: its body, and the index at which
/// the code goes on after it.
pub fn extract_loop(code: &Vec<char>, start: usize) -> (found: (Vec<char>, usize))
    requires
        start <= code@.len(),
    ensures
        found.0@ == loop_body(code@, start as int),
        found.1 == loop_exit(code@, start as int),
{
    let mut body: Vec<char> = Vec::new();
    let mut at: usize = start;
    // The loops that are open inside this one; the depth is one more.
    let mut inner: usize = 0;
    while at < code.len()
        invariant
            start <= at <= code@.len(),
            inner <= at - start,
            closing_from(code@, at as int, inner + 1) == loop_end(code@, start as int),
            body@ == code@.subrange(start as int, at as int),
        decreases code@.len() - at,
    {
        let c = code[at];
        if c == ']' && inner == 0 {
            return (body, at + 1);
        }
        if c == '[' {
            inner = inner + 1;
        } else if c == ']' {
            inner = inner - 1;
        }
        body.push(c);
        at = at + 1;
        assert(body@ =~= code@.subrange(start as int, at as int));
    }
    (body, at)
}

} // verus!
