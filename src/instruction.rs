use vstd::prelude::*;

verus! {

/// One resolved operation. A loop boundary carries the index of its partner
/// in the same instruction sequence.
#[derive(Clone, Copy, Debug, PartialEq, Eq, Structural)]
pub enum Instruction {
    MovePointerForward,
    MovePointerBackward,
    IncrementCell,
    DecrementCell,
    OutputCell,
    InputCell,
    LoopStart(usize),
    LoopEnd(usize),
}

/// True for the eight characters that the language gives a meaning to.
pub open spec fn is_significant(c: char) -> bool {
    c == '>' || c == '<' || c == '+' || c == '-' || c == '.' || c == ',' || c == '['
        || c == ']'
}

/// The significant characters of a text, in order.
pub open spec fn significant(t: Seq<char>) -> Seq<char>
    decreases t.len(),
{
    if t.len() == 0 {
        Seq::empty()
    } else if is_significant(t.last()) {
        significant(t.drop_last()).push(t.last())
    } else {
        significant(t.drop_last())
    }
}

/// The source character that an instruction stands for.
pub open spec fn source_char(i: Instruction) -> char {
    match i {
        Instruction::MovePointerForward => '>',
        Instruction::MovePointerBackward => '<',
        Instruction::IncrementCell => '+',
        Instruction::DecrementCell => '-',
        Instruction::OutputCell => '.',
        Instruction::InputCell => ',',
        Instruction::LoopStart(_) => '[',
        Instruction::LoopEnd(_) => ']',
    }
}

/// Every jump target lies inside the sequence.
pub open spec fn targets_in_range(p: Seq<Instruction>) -> bool {
    forall|k: int|
        0 <= k < p.len() ==> match #[trigger] p[k] {
            Instruction::LoopStart(j) => j < p.len(),
            Instruction::LoopEnd(j) => j < p.len(),
            _ => true,
        }
}

/// Each loop start names a later loop end that names it back, and each loop
/// end names an earlier loop start that names it back.
pub open spec fn mutually_linked(p: Seq<Instruction>) -> bool {
    forall|k: int|
        0 <= k < p.len() ==> match #[trigger] p[k] {
            Instruction::LoopStart(j) => k < j < p.len() && p[j as int] == Instruction::LoopEnd(
                k as usize,
            ),
            Instruction::LoopEnd(j) => j < k && p[j as int] == Instruction::LoopStart(k as usize),
            _ => true,
        }
}

/// No two loops overlap without one containing the other: every boundary
/// strictly inside a loop has its partner inside that loop too.
pub open spec fn properly_nested(p: Seq<Instruction>) -> bool {
    forall|k: int, i: int|
        0 <= k < i < p.len() && (#[trigger] p[k]) is LoopStart && i < p[k]->LoopStart_0
            ==> match #[trigger] p[i] {
            Instruction::LoopStart(j) => j < p[k]->LoopStart_0,
            Instruction::LoopEnd(j) => k < j,
            _ => true,
        }
}

/// `p` is a resolved form of the text `t`: one instruction per significant
/// character, in order, with loop boundaries paired as the brackets nest.
pub open spec fn resolves(t: Seq<char>, p: Seq<Instruction>) -> bool {
    &&& p.len() == significant(t).len()
    &&& forall|k: int| 0 <= k < p.len() ==> source_char(#[trigger] p[k]) == significant(t)[k]
    &&& mutually_linked(p)
    &&& properly_nested(p)
}

/// Two well-paired sequences that agree on every instruction's source
/// character give each loop start the same partner.
proof fn lemma_same_partner(p: Seq<Instruction>, q: Seq<Instruction>, k: int)
    requires
        p.len() == q.len(),
        forall|i: int| 0 <= i < p.len() ==> source_char(#[trigger] p[i]) == source_char(q[i]),
        mutually_linked(p),
        properly_nested(p),
        mutually_linked(q),
        properly_nested(q),
        0 <= k < p.len(),
        p[k] is LoopStart,
    ensures
        q[k] == p[k],
    decreases p[k]->LoopStart_0 - k + q[k]->LoopStart_0 - k,
{
    assert(source_char(p[k]) == source_char(q[k]));
    let j = p[k]->LoopStart_0 as int;
    let j2 = q[k]->LoopStart_0 as int;
    if j < j2 {
        assert(source_char(p[j]) == source_char(q[j]));
        let m = q[j]->LoopEnd_0 as int;
        assert(k < m < j);
        assert(source_char(p[m]) == source_char(q[m]));
        lemma_same_partner(p, q, m);
        assert(p[j] == Instruction::LoopEnd(m as usize));
    } else if j2 < j {
        assert(source_char(p[j2]) == source_char(q[j2]));
        let m = p[j2]->LoopEnd_0 as int;
        assert(k < m < j2);
        assert(source_char(p[m]) == source_char(q[m]));
        lemma_same_partner(p, q, m);
        assert(q[j2] == Instruction::LoopEnd(m as usize));
    }
}

/// A text has at most one resolved form.
pub proof fn lemma_resolved_form_unique(t: Seq<char>, p: Seq<Instruction>, q: Seq<Instruction>)
    requires
        resolves(t, p),
        resolves(t, q),
    ensures
        p == q,
{
    assert forall|i: int| 0 <= i < p.len() implies source_char(#[trigger] p[i]) == source_char(q[i]) by {
        assert(source_char(q[i]) == significant(t)[i]);
    }
    assert forall|i: int| 0 <= i < p.len() implies #[trigger] p[i] == q[i] by {
        match p[i] {
            Instruction::LoopStart(_) => {
                lemma_same_partner(p, q, i);
            },
            Instruction::LoopEnd(a) => {
                assert(source_char(q[i]) == ']');
                lemma_same_partner(p, q, a as int);
            },
            _ => {},
        }
    }
    assert(p =~= q);
}

/// Checks that every jump target of a sequence lies inside it.
pub fn jumps_in_range(p: &Vec<Instruction>) -> (r: bool)
    ensures
        r == targets_in_range(p@),
{
    let n = p.len();
    let mut k: usize = 0;
    while k < n
        invariant
            n == p.len(),
            k <= n,
            forall|i: int|
                0 <= i < k ==> match #[trigger] p@[i] {
                    Instruction::LoopStart(j) => j < n,
                    Instruction::LoopEnd(j) => j < n,
                    _ => true,
                },
        decreases n - k,
    {
        match p[k] {
            Instruction::LoopStart(j) => {
                if j >= n {
                    return false;
                }
            },
            Instruction::LoopEnd(j) => {
                if j >= n {
                    return false;
                }
            },
            _ => {},
        }
        k = k + 1;
    }
    true
}

} // verus!
