//! The parser: converts source text into a tree of instructions,
//! resolving matched bracket pairs into nested [`Instruction::Loop`]
//! nodes.
//!
//! Characters outside the eight-character instruction set act as
//! comments and are silently skipped. Unbalanced brackets are absorbed
//! permissively rather than reported: a `]` with no open loop is
//! skipped, and every loop still open at the end of the text is closed
//! there. The contract pins the produced tree down through its
//! canonical text [`unparse_seq`]: it must equal the source text as
//! cleaned by [`clean`], and the tree may hold no parser-internal
//! [`Instruction::LoopEnd`] sentinel — no two such trees share a
//! canonical text.

use vstd::prelude::*;
use vstd::string::StrSliceExecFns;

use crate::Instruction;

verus! {

/// The six characters that name leaf instructions.
pub open spec fn is_leaf_char(c: char) -> bool {
    c == '+' || c == '-' || c == '>' || c == '<' || c == '.' || c == ','
}

/// The canonical source text of one instruction.
pub open spec fn unparse_instr(i: Instruction) -> Seq<char>
    decreases i,
{
    match i {
        Instruction::Increment => seq!['+'],
        Instruction::Decrement => seq!['-'],
        Instruction::Forward => seq!['>'],
        Instruction::Backward => seq!['<'],
        Instruction::Loop(body) => seq!['['] + unparse_vec(body) + seq![']'],
        Instruction::LoopEnd => Seq::empty(),
        Instruction::Out => seq!['.'],
        Instruction::In => seq![','],
    }
}

/// The canonical source text of a loop body.
pub open spec fn unparse_vec(body: Vec<Instruction>) -> Seq<char>
    decreases body,
{
    unparse_seq(body@)
}

/// The canonical source text of a sequence of instructions.
pub open spec fn unparse_seq(s: Seq<Instruction>) -> Seq<char>
    decreases s,
{
    if s.len() == 0 {
        Seq::empty()
    } else {
        unparse_seq(s.drop_last()) + unparse_instr(s.last())
    }
}

/// No parser-internal `LoopEnd` sentinel anywhere in the instruction.
pub open spec fn no_loop_end_instr(i: Instruction) -> bool
    decreases i,
{
    match i {
        Instruction::Loop(body) => no_loop_end_vec(body),
        Instruction::LoopEnd => false,
        _ => true,
    }
}

/// No parser-internal `LoopEnd` sentinel anywhere in the loop body.
pub open spec fn no_loop_end_vec(body: Vec<Instruction>) -> bool
    decreases body,
{
    no_loop_end_seq(body@)
}

/// No parser-internal `LoopEnd` sentinel anywhere in the sequence.
pub open spec fn no_loop_end_seq(s: Seq<Instruction>) -> bool
    decreases s,
{
    forall|k: int| 0 <= k < s.len() ==> no_loop_end_instr(#[trigger] s[k])
}

/// `n` closing brackets.
pub open spec fn closers(n: nat) -> Seq<char>
    decreases n,
{
    if n == 0 {
        Seq::empty()
    } else {
        seq![']'] + closers((n - 1) as nat)
    }
}

/// The source text from position `i` on, cleaned the way the parser
/// reads it, with `depth` loops open so far: characters that name no
/// instruction drop out, a `]` with no open loop drops out, and every
/// loop still open at the end of the text is closed there.
pub open spec fn clean(s: Seq<char>, i: int, depth: nat) -> Seq<char>
    decreases s.len() - i,
{
    if i < 0 || i >= s.len() {
        closers(depth)
    } else if s[i] == '[' {
        seq!['['] + clean(s, i + 1, depth + 1)
    } else if s[i] == ']' {
        if depth > 0 {
            seq![']'] + clean(s, i + 1, (depth - 1) as nat)
        } else {
            clean(s, i + 1, 0)
        }
    } else if is_leaf_char(s[i]) {
        seq![s[i]] + clean(s, i + 1, depth)
    } else {
        clean(s, i + 1, depth)
    }
}

/// A source text that, from position `i` on, consists solely of
/// instruction characters and closes exactly the `depth` loops standing
/// open before it plus every loop it opens itself.
pub open spec fn strict_source(s: Seq<char>, i: int, depth: nat) -> bool
    decreases s.len() - i,
{
    if i < 0 || i >= s.len() {
        depth == 0
    } else if s[i] == '[' {
        strict_source(s, i + 1, depth + 1)
    } else if s[i] == ']' {
        depth > 0 && strict_source(s, i + 1, (depth - 1) as nat)
    } else {
        is_leaf_char(s[i]) && strict_source(s, i + 1, depth)
    }
}

/// Law: cleaning changes nothing in a source text that consists solely
/// of instruction characters and balances its brackets — the tree
/// parsed from such a text has the text itself as its canonical form.
pub proof fn lemma_clean_identity(s: Seq<char>, i: int, depth: nat)
    requires
        0 <= i <= s.len(),
        strict_source(s, i, depth),
    ensures
        clean(s, i, depth) == s.skip(i),
    decreases s.len() - i,
{
    if i >= s.len() {
        assert(s.skip(i) =~= Seq::<char>::empty());
    } else {
        if s[i] == '[' {
            lemma_clean_identity(s, i + 1, depth + 1);
        } else if s[i] == ']' {
            lemma_clean_identity(s, i + 1, (depth - 1) as nat);
        } else {
            lemma_clean_identity(s, i + 1, depth);
        }
        assert(seq![s[i]] + s.skip(i + 1) =~= s.skip(i));
    }
}

/// The canonical text of a parser stack: each level after the first
/// stands inside one more open loop.
pub open spec fn unparse_stack(st: Seq<Vec<Instruction>>) -> Seq<char>
    decreases st,
{
    if st.len() == 0 {
        Seq::empty()
    } else if st.len() == 1 {
        unparse_vec(st[0])
    } else {
        unparse_stack(st.drop_last()) + seq!['['] + unparse_vec(st.last())
    }
}

proof fn lemma_seq_add_assoc(a: Seq<char>, b: Seq<char>, c: Seq<char>)
    ensures
        (a + b) + c == a + (b + c),
{
    assert((a + b) + c =~= a + (b + c));
}

proof fn lemma_unparse_push(s: Seq<Instruction>, x: Instruction)
    ensures
        unparse_seq(s.push(x)) == unparse_seq(s) + unparse_instr(x),
{
    assert(s.push(x).drop_last() =~= s);
    assert(s.push(x).last() == x);
}

proof fn lemma_no_loop_end_push(s: Seq<Instruction>, x: Instruction)
    requires
        no_loop_end_seq(s),
        no_loop_end_instr(x),
    ensures
        no_loop_end_seq(s.push(x)),
{
    assert forall|k: int| 0 <= k < s.push(x).len() implies no_loop_end_instr(
        #[trigger] s.push(x)[k],
    ) by {
        if k < s.len() {
            assert(s.push(x)[k] == s[k]);
        } else {
            assert(s.push(x)[k] == x);
        }
    }
}

/// Appending one instruction to the top level of a stack appends its
/// canonical text to the stack's.
proof fn lemma_stack_append_top(st: Seq<Vec<Instruction>>, top2: Vec<Instruction>, x: Instruction)
    requires
        st.len() >= 1,
        top2@ == st.last()@.push(x),
    ensures
        unparse_stack(st.drop_last().push(top2)) == unparse_stack(st) + unparse_instr(x),
{
    let st2 = st.drop_last().push(top2);
    assert(st2.drop_last() =~= st.drop_last());
    assert(st2.last() == top2);
    lemma_unparse_push(st.last()@, x);
    if st.len() == 1 {
        assert(st2.len() == 1);
        assert(st2[0] == top2);
        assert(st[0] == st.last());
    } else {
        lemma_seq_add_assoc(
            unparse_stack(st.drop_last()) + seq!['['],
            unparse_seq(st.last()@),
            unparse_instr(x),
        );
    }
}

/// Closing the top level of a stack — wrapping it in a loop appended to
/// the level below — appends one `]` to the stack's canonical text.
proof fn lemma_stack_close_top(st: Seq<Vec<Instruction>>, top2: Vec<Instruction>)
    requires
        st.len() >= 2,
        top2@ == st.drop_last().last()@.push(Instruction::Loop(st.last())),
    ensures
        unparse_stack(st.drop_last().drop_last().push(top2)) == unparse_stack(st) + seq![']'],
{
    let st1 = st.drop_last();
    let body = st.last();
    lemma_stack_append_top(st1, top2, Instruction::Loop(body));
    let u1 = unparse_stack(st1.drop_last());
    // the two sides differ only in how the additions associate
    lemma_seq_add_assoc(seq!['['], unparse_vec(body), seq![']']);
    if st1.len() == 1 {
        assert(st1[0] == st1.last());
    } else {
        lemma_seq_add_assoc(u1, seq!['['] + unparse_vec(body), seq![']']);
        lemma_seq_add_assoc(u1, seq!['['], unparse_vec(body));
    }
}

/// Parses source text into an ordered sequence of top-level
/// instructions, bracket pairs resolved into nested loops.
#[verifier::loop_isolation(false)]
pub fn parse(src: &str) -> (prog: Vec<Instruction>)
    ensures
        no_loop_end_seq(prog@),
        unparse_seq(prog@) == clean(src@, 0, 0),
{
    let n = src.unicode_len();
    let mut stack: Vec<Vec<Instruction>> = Vec::new();
    stack.push(Vec::new());
    proof {
        assert(stack@[0]@ =~= Seq::<Instruction>::empty());
        assert(unparse_stack(stack@) =~= Seq::<char>::empty());
    }
    let mut i: usize = 0;
    while i < n
        invariant
            n == src@.len(),
            i <= n,
            stack@.len() >= 1,
            forall|k: int| 0 <= k < stack@.len() ==> no_loop_end_seq(#[trigger] stack@[k]@),
            unparse_stack(stack@) + clean(src@, i as int, (stack@.len() - 1) as nat) == clean(
                src@,
                0,
                0,
            ),
        decreases n - i,
    {
        let c = src.get_char(i);
        let ghost st = stack@;
        let ghost d = (stack@.len() - 1) as nat;
        if c == '[' {
            stack.push(Vec::new());
            proof {
                assert(stack@.drop_last() =~= st);
                assert(stack@.last()@ =~= Seq::<Instruction>::empty());
                assert(unparse_stack(stack@) =~= unparse_stack(st) + seq!['[']);
                lemma_seq_add_assoc(
                    unparse_stack(st),
                    seq!['['],
                    clean(src@, i as int + 1, d + 1),
                );
            }
        } else if c == ']' {
            if stack.len() >= 2 {
                let body = stack.pop().unwrap();
                let mut top = stack.pop().unwrap();
                top.push(Instruction::Loop(body));
                let ghost top2 = top;
                stack.push(top);
                proof {
                    lemma_stack_close_top(st, top2);
                    lemma_no_loop_end_push(
                        st.drop_last().last()@,
                        Instruction::Loop(st.last()),
                    );
                    lemma_seq_add_assoc(
                        unparse_stack(st),
                        seq![']'],
                        clean(src@, i as int + 1, (d - 1) as nat),
                    );
                }
            }
        } else {
            let leaf = match c {
                '+' => Some(Instruction::Increment),
                '-' => Some(Instruction::Decrement),
                '>' => Some(Instruction::Forward),
                '<' => Some(Instruction::Backward),
                '.' => Some(Instruction::Out),
                ',' => Some(Instruction::In),
                _ => None,
            };
            if let Some(x) = leaf {
                let ghost xg = x;
                let mut top = stack.pop().unwrap();
                top.push(x);
                let ghost top2 = top;
                stack.push(top);
                proof {
                    lemma_stack_append_top(st, top2, xg);
                    lemma_no_loop_end_push(st.last()@, xg);
                    assert(unparse_instr(xg) =~= seq![c]);
                    lemma_seq_add_assoc(
                        unparse_stack(st),
                        seq![c],
                        clean(src@, i as int + 1, d),
                    );
                }
            }
        }
        i = i + 1;
    }
    while stack.len() >= 2
        invariant
            stack@.len() >= 1,
            forall|k: int| 0 <= k < stack@.len() ==> no_loop_end_seq(#[trigger] stack@[k]@),
            unparse_stack(stack@) + closers((stack@.len() - 1) as nat) == clean(src@, 0, 0),
        decreases stack@.len(),
    {
        let ghost st = stack@;
        let body = stack.pop().unwrap();
        let mut top = stack.pop().unwrap();
        top.push(Instruction::Loop(body));
        let ghost top2 = top;
        stack.push(top);
        proof {
            lemma_stack_close_top(st, top2);
            lemma_no_loop_end_push(st.drop_last().last()@, Instruction::Loop(st.last()));
            lemma_seq_add_assoc(
                unparse_stack(stack@),
                seq![']'],
                closers((stack@.len() - 1) as nat),
            );
        }
    }
    let prog = stack.pop().unwrap();
    proof {
        assert(unparse_seq(prog@) + Seq::<char>::empty() =~= unparse_seq(prog@));
    }
    prog
}

} // verus!
