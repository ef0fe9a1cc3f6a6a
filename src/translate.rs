use vstd::prelude::*;
use vstd::string::StrSliceExecFns;
use crate::instruction::{
    Instruction, is_significant, significant, source_char, mutually_linked, properly_nested,
    resolves,
};

verus! {

/// Why a source text has no resolved form.
#[derive(Clone, Copy, Debug, PartialEq, Eq, Structural)]
pub enum TranslateError {
    /// A `]` with no open `[` before it, at this character position.
    UnmatchedCloseBracket { position: usize },
    /// The text ends with at least one `[` still open.
    UnmatchedOpenBracket,
}

/// How a character changes the bracket depth.
pub open spec fn depth_change(c: char) -> int {
    if c == '[' {
        1
    } else if c == ']' {
        -1
    } else {
        0
    }
}

/// Open brackets minus close brackets in a text.
pub open spec fn depth(t: Seq<char>) -> int
    decreases t.len(),
{
    if t.len() == 0 {
        0
    } else {
        depth(t.drop_last()) + depth_change(t.last())
    }
}

/// No prefix of the text closes more brackets than it opened.
pub open spec fn never_underflows(t: Seq<char>) -> bool {
    forall|i: int| 0 <= i <= t.len() ==> depth(#[trigger] t.subrange(0, i)) >= 0
}

/// Brackets balanced and properly nested.
pub open spec fn balanced(t: Seq<char>) -> bool {
    never_underflows(t) && depth(t) == 0
}

/// The character at `p` is the first `]` that has no open `[` before it.
pub open spec fn first_unmatched_close(t: Seq<char>, p: int) -> bool {
    &&& 0 <= p < t.len()
    &&& depth(t.subrange(0, p + 1)) < 0
    &&& forall|i: int| 0 <= i <= p ==> depth(#[trigger] t.subrange(0, i)) >= 0
}

/// `e` is the error that the text `t` is refused with.
pub open spec fn translation_error(t: Seq<char>, e: TranslateError) -> bool {
    match e {
        TranslateError::UnmatchedCloseBracket { position } => first_unmatched_close(t, position as int),
        TranslateError::UnmatchedOpenBracket => never_underflows(t) && depth(t) > 0,
    }
}

/// Stack positions are strictly increasing placeholders of open loops, and
/// every other loop boundary is linked to its partner with no open loop
/// between them.
spec fn partially_linked(p: Seq<Instruction>, stack: Seq<usize>) -> bool {
    &&& forall|m: int, n: int| 0 <= m < n < stack.len() ==> stack[m] < stack[n]
    &&& forall|m: int|
        0 <= m < stack.len() ==> #[trigger] stack[m] < p.len() && p[stack[m] as int]
            == Instruction::LoopStart(0)
    &&& forall|k: int|
        0 <= k < p.len() ==> match #[trigger] p[k] {
            Instruction::LoopStart(j) => stack.contains(k as usize) || (k < j < p.len()
                && p[j as int] == Instruction::LoopEnd(k as usize) && forall|m: int|
                0 <= m < stack.len() ==> !(k <= #[trigger] stack[m] <= j)),
            Instruction::LoopEnd(j) => j < k && p[j as int] == Instruction::LoopStart(k as usize)
                && forall|m: int| 0 <= m < stack.len() ==> !(j <= #[trigger] stack[m] <= k),
            _ => true,
        }
}

proof fn lemma_prefix_step(t: Seq<char>, i: int)
    requires
        0 <= i < t.len(),
    ensures
        t.subrange(0, i + 1).drop_last() == t.subrange(0, i),
        t.subrange(0, i + 1).last() == t[i],
        depth(t.subrange(0, i + 1)) == depth(t.subrange(0, i)) + depth_change(t[i]),
        significant(t.subrange(0, i + 1)) == if is_significant(t[i]) {
            significant(t.subrange(0, i)).push(t[i])
        } else {
            significant(t.subrange(0, i))
        },
{
    assert(t.subrange(0, i + 1).drop_last() =~= t.subrange(0, i));
}

/// Translates source text into a resolved instruction sequence. Characters
/// other than the eight significant ones are ignored; each `[` is paired
/// with the `]` that closes it, in both directions.
pub fn parse_brainfuck(code: &str) -> (r: Result<Vec<Instruction>, TranslateError>)
    ensures
        r is Ok <==> balanced(code@),
        r matches Ok(p) ==> resolves(code@, p@),
        !never_underflows(code@) ==> (r matches Err(
            TranslateError::UnmatchedCloseBracket { position },
        ) && first_unmatched_close(code@, position as int)),
        r matches Err(e) ==> translation_error(code@, e),
        r == Err::<Vec<Instruction>, TranslateError>(TranslateError::UnmatchedOpenBracket) <==> (
        never_underflows(code@) && depth(code@) > 0),
{
    broadcast use vstd::string::axiom_spec_iter;

    let total = code.unicode_len();
    let ghost t = code@;
    let mut commands: Vec<Instruction> = Vec::new();
    let mut loop_stack: Vec<usize> = Vec::new();
    let mut i: usize = 0;
    proof {
        assert(t.subrange(0, 0) =~= Seq::<char>::empty());
    }
    for c in it: code.chars()
        invariant
            total == t.len(),
            t == code@,
            it.seq() == t,
            i == it.index(),
            0 <= i <= t.len(),
            commands@.len() == significant(t.subrange(0, i as int)).len(),
            forall|k: int|
                0 <= k < commands@.len() ==> source_char(#[trigger] commands@[k]) == significant(
                    t.subrange(0, i as int),
                )[k],
            loop_stack@.len() == depth(t.subrange(0, i as int)),
            forall|j: int| 0 <= j <= i ==> depth(#[trigger] t.subrange(0, j)) >= 0,
            partially_linked(commands@, loop_stack@),
            properly_nested(commands@),
    {
        proof {
            lemma_prefix_step(t, i as int);
        }
        let ghost before = commands@;
        let ghost stack_before = loop_stack@;
        if c == '>' {
            commands.push(Instruction::MovePointerForward);
        } else if c == '<' {
            commands.push(Instruction::MovePointerBackward);
        } else if c == '+' {
            commands.push(Instruction::IncrementCell);
        } else if c == '-' {
            commands.push(Instruction::DecrementCell);
        } else if c == '.' {
            commands.push(Instruction::OutputCell);
        } else if c == ',' {
            commands.push(Instruction::InputCell);
        } else if c == '[' {
            let n = commands.len();
            loop_stack.push(n);
            commands.push(Instruction::LoopStart(0));
            proof {
                assert(loop_stack@[loop_stack@.len() - 1] == n);
                assert forall|k: int| 0 <= k < commands@.len() implies match #[trigger] commands@[k] {
                    Instruction::LoopStart(j) => loop_stack@.contains(k as usize) || (k < j < commands@.len()
                        && commands@[j as int] == Instruction::LoopEnd(k as usize) && forall|m: int|
                        0 <= m < loop_stack@.len() ==> !(k <= #[trigger] loop_stack@[m] <= j)),
                    Instruction::LoopEnd(j) => j < k && commands@[j as int] == Instruction::LoopStart(k as usize)
                        && forall|m: int| 0 <= m < loop_stack@.len() ==> !(j <= #[trigger] loop_stack@[m] <= k),
                    _ => true,
                } by {
                    if k < n {
                        assert(commands@[k] == before[k]);
                        if let Instruction::LoopStart(j) = before[k] {
                            if stack_before.contains(k as usize) {
                                let m = choose|m: int| 0 <= m < stack_before.len() && stack_before[m] == k as usize;
                                assert(loop_stack@[m] == k as usize);
                            }
                        }
                    } else {
                        assert(loop_stack@[loop_stack@.len() - 1] == k as usize);
                    }
                }
            }
        } else if c == ']' {
            if loop_stack.len() == 0 {
                return Err(TranslateError::UnmatchedCloseBracket { position: i });
            }
            let start_index = loop_stack.pop().unwrap();
            let end_index = commands.len();
            commands.push(Instruction::LoopEnd(start_index));
            commands.set(start_index, Instruction::LoopStart(end_index));
            proof {
                let s = start_index as int;
                let n = end_index as int;
                assert(stack_before == loop_stack@.push(start_index));
                assert forall|k: int| 0 <= k < commands@.len() && k != s && k != n implies commands@[k] == before[k] by {}
                assert forall|k: int| 0 <= k < commands@.len() implies match #[trigger] commands@[k] {
                    Instruction::LoopStart(j) => loop_stack@.contains(k as usize) || (k < j < commands@.len()
                        && commands@[j as int] == Instruction::LoopEnd(k as usize) && forall|m: int|
                        0 <= m < loop_stack@.len() ==> !(k <= #[trigger] loop_stack@[m] <= j)),
                    Instruction::LoopEnd(j) => j < k && commands@[j as int] == Instruction::LoopStart(k as usize)
                        && forall|m: int| 0 <= m < loop_stack@.len() ==> !(j <= #[trigger] loop_stack@[m] <= k),
                    _ => true,
                } by {
                    assert(stack_before[stack_before.len() - 1] == start_index);
                    if k != s && k != n {
                        if let Instruction::LoopStart(j) = before[k] {
                            if stack_before.contains(k as usize) {
                                let m = choose|m: int| 0 <= m < stack_before.len() && stack_before[m] == k as usize;
                                assert(m != stack_before.len() - 1);
                                assert(loop_stack@[m] == k as usize);
                            } else {
                                assert(j as int != s);
                            }
                        }
                        if let Instruction::LoopEnd(j) = before[k] {
                            assert(j as int != s);
                        }
                    }
                }
                assert forall|k: int, x: int|
                    0 <= k < x < commands@.len() && (#[trigger] commands@[k]) is LoopStart && x < commands@[k]->LoopStart_0
                        implies match #[trigger] commands@[x] {
                        Instruction::LoopStart(j) => j < commands@[k]->LoopStart_0,
                        Instruction::LoopEnd(j) => k < j,
                        _ => true,
                    } by {
                    assert(stack_before[stack_before.len() - 1] == start_index);
                    if k == s {
                        assert(commands@[x] == before[x]);
                        if let Instruction::LoopStart(j) = before[x] {
                            assert(!stack_before.contains(x as usize));
                        }
                        if let Instruction::LoopEnd(j) = before[x] {
                            assert(!(j <= stack_before[stack_before.len() - 1] <= x));
                        }
                    } else {
                        assert(commands@[k] == before[k]);
                        if let Instruction::LoopStart(j) = before[k] {
                            if stack_before.contains(k as usize) {
                                let m = choose|m: int| 0 <= m < stack_before.len() && stack_before[m] == k as usize;
                                assert(before[k] == Instruction::LoopStart(0));
                            } else {
                                assert(!(k <= stack_before[stack_before.len() - 1] <= j));
                                assert(commands@[x] == before[x]);
                            }
                        }
                    }
                }
            }
        }
        proof {
            let t1 = t.subrange(0, i + 1);
            assert(significant(t1).len() == commands@.len());
            assert forall|k: int| 0 <= k < commands@.len() implies source_char(#[trigger] commands@[k]) == significant(t1)[k] by {
                if k < before.len() {
                    assert(source_char(commands@[k]) == source_char(before[k]));
                }
            }
        }
        i = i + 1;
    }
    proof {
        assert(t.subrange(0, t.len() as int) =~= t);
    }
    if loop_stack.len() != 0 {
        return Err(TranslateError::UnmatchedOpenBracket);
    }
    proof {
        assert forall|k: int| 0 <= k < commands@.len() implies match #[trigger] commands@[k] {
            Instruction::LoopStart(j) => k < j < commands@.len() && commands@[j as int] == Instruction::LoopEnd(k as usize),
            Instruction::LoopEnd(j) => j < k && commands@[j as int] == Instruction::LoopStart(k as usize),
            _ => true,
        } by {
            if let Instruction::LoopStart(j) = commands@[k] {
                assert(!loop_stack@.contains(k as usize));
            }
        }
        assert(mutually_linked(commands@));
    }
    Ok(commands)
}

} // verus!
