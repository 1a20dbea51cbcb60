//! Bracket matching: which `[` belongs to which `]`, and where a jump lands.

use crate::command::Command;
use crate::error::InterpreterError;
use std::collections::HashMap;
use vstd::prelude::*;

verus! {

broadcast use vstd::std_specs::hash::group_hash_axioms;

/// Whether an instruction is one of the two jumps.
pub open spec fn is_bracket(command: Command) -> bool {
    command == Command::JumpPastIfZero || command == Command::JumpBackIfNonZero
}

/// What an instruction adds to the nesting depth: `[` opens a level, `]` closes one.
pub open spec fn depth_change(command: Command) -> int {
    match command {
        Command::JumpPastIfZero => 1,
        Command::JumpBackIfNonZero => -1,
        _ => 0,
    }
}

/// The nesting depth in front of position `i`: the `[` minus the `]` among the
/// first `i` instructions. It is negative where a `]` closed a level that no
/// `[` had opened.
pub open spec fn depth(program: Seq<Command>, i: int) -> int
    decreases i,
{
    if i <= 0 {
        0
    } else {
        depth(program, i - 1) + depth_change(program[i - 1])
    }
}

/// The `[` at `open` and the `]` at `close` enclose one loop: behind `close`
/// the depth is back to what it was in front of `open`, for the first time.
pub open spec fn is_pair(program: Seq<Command>, open: int, close: int) -> bool {
    &&& 0 <= open < close < program.len()
    &&& program[open] == Command::JumpPastIfZero
    &&& program[close] == Command::JumpBackIfNonZero
    &&& depth(program, close + 1) == depth(program, open)
    &&& forall|k: int| open < k <= close ==> #[trigger] depth(program, k) > depth(program, open)
}

/// The brackets at `i` and `j` are the two ends of one loop.
pub open spec fn pairs_with(program: Seq<Command>, i: int, j: int) -> bool {
    is_pair(program, i, j) || is_pair(program, j, i)
}

/// The bracket at `i` has a partner.
pub open spec fn is_matched(program: Seq<Command>, i: int) -> bool {
    exists|j: int| pairs_with(program, i, j)
}

/// The position of the partner of the bracket at `i`.
pub open spec fn partner(program: Seq<Command>, i: int) -> int {
    choose|j: int| pairs_with(program, i, j)
}

/// Where execution continues when the jump at `i` is taken: behind its partner.
pub open spec fn jump_target(program: Seq<Command>, i: int) -> int {
    partner(program, i) + 1
}

/// Every bracket of the program has a partner.
pub open spec fn is_balanced(program: Seq<Command>) -> bool {
    forall|i: int|
        0 <= i < program.len() && is_bracket(#[trigger] program[i]) ==> is_matched(program, i)
}

/// Position `i` holds the first bracket of the program that has no partner.
pub open spec fn is_first_unmatched(program: Seq<Command>, i: int) -> bool {
    &&& 0 <= i < program.len()
    &&& is_bracket(program[i])
    &&& !is_matched(program, i)
    &&& forall|j: int| 0 <= j < i && is_bracket(#[trigger] program[j]) ==> is_matched(program, j)
}

/// The error that reports the bracket at `i` as unmatched: a `[` misses its
/// right bracket, a `]` its left one.
pub open spec fn unmatched_error(program: Seq<Command>, i: int) -> InterpreterError {
    if program[i] == Command::JumpPastIfZero {
        InterpreterError::RightBracketNotFound(i as usize)
    } else {
        InterpreterError::LeftBracketNotFound(i as usize)
    }
}

/// The jump table of a program: one entry for each bracket, which holds the
/// position behind that bracket's partner.
pub open spec fn jump_table(program: Seq<Command>) -> Map<usize, usize> {
    Map::new(
        |i: usize| i < program.len() && is_bracket(program[i as int]),
        |i: usize| jump_target(program, i as int) as usize,
    )
}

/// A bracket has at most one partner.
pub proof fn lemma_partner_unique(program: Seq<Command>, i: int, a: int, b: int)
    requires
        pairs_with(program, i, a),
        pairs_with(program, i, b),
    ensures
        a == b,
{
}

/// The partner of a bracket is the one position that it pairs with.
pub proof fn lemma_partner_is(program: Seq<Command>, i: int, j: int)
    requires
        pairs_with(program, i, j),
    ensures
        partner(program, i) == j,
        jump_target(program, i) == j + 1,
        is_matched(program, i),
{
    lemma_partner_unique(program, i, j, partner(program, i));
}

/// At most one position is the first unmatched bracket of a program.
pub proof fn lemma_first_unmatched_unique(program: Seq<Command>, i: int, j: int)
    requires
        is_first_unmatched(program, i),
        is_first_unmatched(program, j),
    ensures
        i == j,
{
}

/// A program with a first unmatched bracket is not balanced.
pub proof fn lemma_unmatched_not_balanced(program: Seq<Command>, i: int)
    requires
        is_first_unmatched(program, i),
    ensures
        !is_balanced(program),
{
}

/// Finds the first unmatched bracket of a program that is not balanced,
/// searching to the right from `k`.
proof fn lemma_find_unmatched(program: Seq<Command>, k: int) -> (i: int)
    requires
        !is_balanced(program),
        0 <= k <= program.len(),
        forall|j: int| 0 <= j < k && is_bracket(#[trigger] program[j]) ==> is_matched(program, j),
    ensures
        is_first_unmatched(program, i),
    decreases program.len() - k,
{
    if k < program.len() && is_bracket(program[k]) && !is_matched(program, k) {
        k
    } else {
        lemma_find_unmatched(program, k + 1)
    }
}

/// A program that is not balanced has a first unmatched bracket.
pub proof fn lemma_unbalanced_has_first_unmatched(program: Seq<Command>) -> (i: int)
    requires
        !is_balanced(program),
    ensures
        is_first_unmatched(program, i),
{
    lemma_find_unmatched(program, 0)
}

/// In front of a balanced program's `k`-th instruction the depth is not
/// negative.
proof fn lemma_balanced_depth_not_negative(program: Seq<Command>, k: int)
    requires
        is_balanced(program),
        0 <= k <= program.len(),
    ensures
        depth(program, k) >= 0,
    decreases k,
{
    if k > 0 {
        lemma_balanced_depth_not_negative(program, k - 1);
        if program[k - 1] == Command::JumpBackIfNonZero {
            let j = partner(program, k - 1);
            lemma_balanced_depth_not_negative(program, j);
        }
    }
}

/// Behind a balanced program the depth is no greater than anywhere in it.
proof fn lemma_balanced_depth_ends_lowest(program: Seq<Command>, k: int)
    requires
        is_balanced(program),
        0 <= k <= program.len(),
    ensures
        depth(program, program.len() as int) <= depth(program, k),
    decreases program.len() - k,
{
    if k < program.len() {
        if program[k] == Command::JumpPastIfZero {
            let j = partner(program, k);
            lemma_balanced_depth_ends_lowest(program, j + 1);
        } else {
            lemma_balanced_depth_ends_lowest(program, k + 1);
        }
    }
}

/// Finds the `]` of the `[` at `open`, searching to the right from `k`.
proof fn lemma_find_close(program: Seq<Command>, open: int, k: int) -> (close: int)
    requires
        0 <= open < k <= program.len(),
        program[open] == Command::JumpPastIfZero,
        depth(program, program.len() as int) <= depth(program, open),
        forall|m: int| open < m <= k ==> #[trigger] depth(program, m) > depth(program, open),
    ensures
        is_pair(program, open, close),
    decreases program.len() - k,
{
    assert(depth(program, k) > depth(program, open));
    if depth(program, k + 1) > depth(program, open) {
        lemma_find_close(program, open, k + 1)
    } else {
        k
    }
}

/// Finds the `[` of the `]` at `close`, searching to the left from `k`.
proof fn lemma_find_open(program: Seq<Command>, close: int, k: int) -> (open: int)
    requires
        0 <= k <= close < program.len(),
        program[close] == Command::JumpBackIfNonZero,
        depth(program, close + 1) >= 0,
        forall|m: int| k < m <= close ==> #[trigger] depth(program, m) > depth(program, close + 1),
        k < close ==> depth(program, k) >= depth(program, close + 1),
    ensures
        is_pair(program, open, close),
    decreases k,
{
    if k < close && depth(program, k) == depth(program, close + 1) {
        assert(depth(program, k + 1) > depth(program, close + 1));
        k
    } else {
        assert(depth(program, k) > depth(program, close + 1));
        lemma_find_open(program, close, k - 1)
    }
}

/// A program is balanced exactly if its depth never goes below zero and is
/// zero behind its last instruction.
pub proof fn lemma_balanced_by_depth(program: Seq<Command>)
    ensures
        is_balanced(program) <==> {
            &&& depth(program, program.len() as int) == 0
            &&& forall|k: int| 0 <= k <= program.len() ==> #[trigger] depth(program, k) >= 0
        },
{
    let n = program.len() as int;
    if is_balanced(program) {
        lemma_balanced_depth_not_negative(program, n);
        lemma_balanced_depth_ends_lowest(program, 0);
        assert forall|k: int| 0 <= k <= n implies #[trigger] depth(program, k) >= 0 by {
            lemma_balanced_depth_not_negative(program, k);
        }
    }
    if depth(program, n) == 0 && forall|k: int| 0 <= k <= n ==> #[trigger] depth(program, k) >= 0 {
        assert forall|i: int| 0 <= i < n && is_bracket(#[trigger] program[i]) implies is_matched(
            program,
            i,
        ) by {
            if program[i] == Command::JumpPastIfZero {
                let close = lemma_find_close(program, i, i + 1);
                assert(pairs_with(program, i, close));
            } else {
                let open = lemma_find_open(program, i, i);
                assert(pairs_with(program, i, open));
            }
        }
    }
}

/// The number of brackets among the first `k` instructions.
pub open spec fn bracket_count(program: Seq<Command>, k: int) -> nat
    decreases k,
{
    if k <= 0 {
        0
    } else if is_bracket(program[k - 1]) {
        bracket_count(program, k - 1) + 1
    } else {
        bracket_count(program, k - 1)
    }
}

/// The positions in front of `k` that hold a bracket.
spec fn bracket_positions(program: Seq<Command>, k: int) -> Set<usize> {
    Set::new(|i: usize| i < k && i < program.len() && is_bracket(program[i as int]))
}

/// There are as many positions that hold a bracket as there are brackets.
proof fn lemma_bracket_positions(program: Seq<Command>, k: int)
    requires
        0 <= k <= program.len(),
        k <= usize::MAX + 1,
    ensures
        bracket_positions(program, k).finite(),
        bracket_positions(program, k).len() == bracket_count(program, k),
    decreases k,
{
    if k == 0 {
        assert(bracket_positions(program, k) =~= Set::<usize>::empty());
    } else {
        lemma_bracket_positions(program, k - 1);
        let before = bracket_positions(program, k - 1);
        if is_bracket(program[k - 1]) {
            assert(bracket_positions(program, k) =~= before.insert((k - 1) as usize));
        } else {
            assert(bracket_positions(program, k) =~= before);
        }
    }
}

/// The jump table has exactly one entry for each bracket of the program and
/// none for any other position, and the entries of the two ends of a loop
/// point behind each other: that of the `[` behind the `]`, that of the `]`
/// behind the `[`.
pub proof fn lemma_jump_table_entries(program: Seq<Command>)
    requires
        program.len() <= usize::MAX,
    ensures
        forall|i: usize|
            jump_table(program).contains_key(i) <==> i < program.len() && is_bracket(
                program[i as int],
            ),
        jump_table(program).dom().finite(),
        jump_table(program).dom().len() == bracket_count(program, program.len() as int),
        forall|open: int, close: int| #[trigger]
            is_pair(program, open, close) ==> {
                &&& jump_table(program)[open as usize] == close + 1
                &&& jump_table(program)[close as usize] == open + 1
            },
{
    lemma_bracket_positions(program, program.len() as int);
    assert(jump_table(program).dom() =~= bracket_positions(program, program.len() as int));
    assert forall|open: int, close: int| #[trigger] is_pair(program, open, close) implies {
        &&& jump_table(program)[open as usize] == close + 1
        &&& jump_table(program)[close as usize] == open + 1
    } by {
        lemma_partner_is(program, open, close);
        lemma_partner_is(program, close, open);
    }
}

/// What holds while the program is scanned from the left, in front of position
/// `i`: `open` holds the `[` that still wait for their `]`, outermost first,
/// and `table` holds the entries of every other bracket in front of `i`.
spec fn scanned(program: Seq<Command>, i: int, open: Seq<usize>, table: Map<usize, usize>) -> bool {
    &&& 0 <= i <= program.len()
    &&& depth(program, i) == open.len()
    &&& forall|k: int| 0 <= k <= i ==> #[trigger] depth(program, k) >= 0
    &&& forall|t: int|
        0 <= t < open.len() ==> {
            &&& (#[trigger] open[t]) < i
            &&& program[open[t] as int] == Command::JumpPastIfZero
            &&& depth(program, open[t] as int) == t
        }
    &&& forall|t: int, u: int| 0 <= t < u < open.len() ==> #[trigger] open[t] < #[trigger] open[u]
    &&& forall|t: int, k: int|
        0 <= t < open.len() && open[t] < k <= i ==> #[trigger] depth(program, k) > #[trigger] level(t)
    &&& forall|p: usize| #[trigger]
        table.contains_key(p) ==> {
            &&& p < i
            &&& is_bracket(program[p as int])
            &&& 1 <= table[p] <= program.len()
            &&& pairs_with(program, p as int, table[p] - 1)
        }
    &&& forall|p: int|
        0 <= p < i && is_bracket(#[trigger] program[p]) ==> table.contains_key(p as usize)
            || open.contains(p as usize)
}

/// The nesting level of the `t`-th waiting `[`, which is `t` itself; written
/// as a function so that quantifiers over the levels have a term to match.
spec fn level(t: int) -> int {
    t
}

/// Builds the jump table of a program in one pass from the left, keeping the
/// positions of the `[` that are still open on a stack. Fails with the first
/// bracket of the program that has no partner.
pub fn resolve_jumps(commands: &Vec<Command>) -> (res: Result<
    HashMap<usize, usize>,
    InterpreterError,
>)
    ensures
        res is Ok <==> is_balanced(commands@),
        res matches Ok(table) ==> table@ == jump_table(commands@),
        res matches Err(error) ==> is_first_unmatched(commands@, error.position() as int),
        forall|i: int|
            is_first_unmatched(commands@, i) ==> res == Err::<HashMap<usize, usize>, _>(
                unmatched_error(commands@, i),
            ),
{
    let mut table: HashMap<usize, usize> = HashMap::new();
    let mut open: Vec<usize> = Vec::new();
    let n = commands.len();
    let mut i: usize = 0;
    while i < n
        invariant
            n == commands.len(),
            scanned(commands@, i as int, open@, table@),
        decreases n - i,
    {
        let ghost program = commands@;
        let ghost before = open@;
        let ghost entries = table@;
        match commands[i] {
            Command::JumpPastIfZero => {
                open.push(i);
                proof {
                    assert forall|p: int|
                        0 <= p < i + 1 && is_bracket(#[trigger] program[p]) implies table@.contains_key(
                        p as usize,
                    ) || open@.contains(p as usize) by {
                        if p == i {
                            assert(open@[before.len() as int] == i);
                        } else if before.contains(p as usize) {
                            let t = choose|t: int| 0 <= t < before.len() && before[t] == p as usize;
                            assert(open@[t] == p as usize);
                        }
                    }
                }
            },
            Command::JumpBackIfNonZero => {
                match open.pop() {
                    Some(start) => {
                        table.insert(start, i + 1);
                        table.insert(i, start + 1);
                        proof {
                            let last = before.len() - 1;
                            assert(level(last) == last);
                            assert(is_pair(program, start as int, i as int));
                            assert forall|p: int|
                                0 <= p < i + 1 && is_bracket(
                                    #[trigger] program[p],
                                ) implies table@.contains_key(p as usize) || open@.contains(
                                p as usize,
                            ) by {
                                if p != i && p != start && !entries.contains_key(p as usize) {
                                    let t = choose|t: int|
                                        0 <= t < before.len() && before[t] == p as usize;
                                    assert(open@[t] == p as usize);
                                }
                            }
                        }
                    },
                    None => {
                        proof {
                            assert forall|j: int|
                                0 <= j < i && is_bracket(#[trigger] program[j]) implies is_matched(
                                program,
                                j,
                            ) by {
                                assert(pairs_with(program, j, table@[j as usize] - 1));
                            }
                        }
                        return Err(InterpreterError::LeftBracketNotFound(i));
                    },
                }
            },
            _ => {},
        }
        i += 1;
    }
    let ghost program = commands@;
    if open.len() > 0 {
        let first = open[0];
        proof {
            assert forall|j: int| !pairs_with(program, first as int, j) by {
                if is_pair(program, first as int, j) {
                    assert(depth(program, j + 1) > level(0));
                }
            }
            assert forall|j: int|
                0 <= j < first && is_bracket(#[trigger] program[j]) implies is_matched(
                program,
                j,
            ) by {
                if open@.contains(j as usize) {
                    let t = choose|t: int| 0 <= t < open@.len() && open@[t] == j as usize;
                    assert(open@[0] <= open@[t]);
                }
                assert(pairs_with(program, j, table@[j as usize] - 1));
            }
        }
        return Err(InterpreterError::RightBracketNotFound(first));
    }
    proof {
        assert forall|p: int|
            0 <= p < program.len() && is_bracket(#[trigger] program[p]) implies is_matched(
            program,
            p,
        ) by {
            assert(pairs_with(program, p, table@[p as usize] - 1));
        }
        assert forall|p: usize| table@.contains_key(p) implies #[trigger] table@[p] == jump_target(
            program,
            p as int,
        ) as usize by {
            lemma_partner_is(program, p as int, table@[p] - 1);
        }
    }
    Ok(table)
}

} // verus!
