//! The instruction vocabulary and the parser / jump resolver.
//!
//! [`parse_code`] scans source text left to right, ignoring every character
//! outside the recognized vocabulary, and produces the instruction sequence
//! with every jump instruction carrying the absolute index of its matching
//! partner. Unbalanced brackets are rejected with
//! [`ParseError::UnmatchedJump`]; no partially resolved sequence is ever
//! returned.

use vstd::prelude::*;

verus! {

/// A single instruction of the language.
///
/// The two jump variants carry the absolute index, within the final
/// instruction sequence, of their matching partner: `JmpFwd(t)` sits at the
/// position recorded by the `JmpBk(i)` at index `t`, and vice versa.
///
/// Basic instructions: `IncPtr`, `DecPtr`, `IncVal`, `DecVal`, `Output`,
/// `Input`, `JmpFwd`, `JmpBk`. Extended Type I instructions (parsed only
/// when the extension flag is set): `Stop`, `Store`, `Retr`, `Rshift`,
/// `Lshift`, `Not`, `Xor`, `And`, `Or`.
#[derive(Debug, Clone, Copy, PartialEq, Eq)]
pub enum Instruction {
    IncPtr,
    DecPtr,
    IncVal,
    DecVal,
    Output,
    Input,
    JmpFwd(usize),
    JmpBk(usize),
    // Extended:
    Stop,
    Store,
    Retr,
    Rshift,
    Lshift,
    Not,
    Xor,
    And,
    Or,
}

/// The error produced when bracket nesting is unbalanced in either
/// direction: an unmatched `]` or an unclosed `[`.
#[derive(Debug, Clone, Copy, PartialEq, Eq)]
pub enum ParseError {
    UnmatchedJump,
}

impl ParseError {
    /// A human-readable description of the error.
    pub fn message(&self) -> (m: &'static str)
        ensures
            m@ == "Could not parse code due to unmatched jumps ([ and ])."@,
    {
        "Could not parse code due to unmatched jumps ([ and ])."
    }
}

/// The jump instruction at index `k`, if any, has its target inside the
/// sequence.
pub open spec fn target_ok_at(ins: Seq<Instruction>, k: int) -> bool {
    match ins[k] {
        Instruction::JmpFwd(t) => (t as int) < ins.len(),
        Instruction::JmpBk(t) => (t as int) < ins.len(),
        _ => true,
    }
}

/// Every jump instruction's target lies inside the sequence.
pub open spec fn targets_ok(ins: Seq<Instruction>) -> bool {
    forall|k: int| 0 <= k < ins.len() ==> #[trigger] target_ok_at(ins, k)
}

/// The non-bracket symbols of the basic vocabulary.
pub open spec fn is_core_symbol(c: char) -> bool {
    c == '>' || c == '<' || c == '+' || c == '-' || c == '.' || c == ','
}

/// The instruction denoted by a non-bracket basic symbol.
pub open spec fn core_instruction(c: char) -> Instruction {
    if c == '>' {
        Instruction::IncPtr
    } else if c == '<' {
        Instruction::DecPtr
    } else if c == '+' {
        Instruction::IncVal
    } else if c == '-' {
        Instruction::DecVal
    } else if c == '.' {
        Instruction::Output
    } else {
        Instruction::Input
    }
}

/// The symbols of the Extended Type I vocabulary.
pub open spec fn is_extended_symbol(c: char) -> bool {
    c == '@' || c == '$' || c == '!' || c == '}' || c == '{' || c == '~' || c == '^' || c == '&'
        || c == '|'
}

/// The instruction denoted by an extended symbol.
pub open spec fn extended_instruction(c: char) -> Instruction {
    if c == '@' {
        Instruction::Stop
    } else if c == '$' {
        Instruction::Store
    } else if c == '!' {
        Instruction::Retr
    } else if c == '}' {
        Instruction::Rshift
    } else if c == '{' {
        Instruction::Lshift
    } else if c == '~' {
        Instruction::Not
    } else if c == '^' {
        Instruction::Xor
    } else if c == '&' {
        Instruction::And
    } else {
        Instruction::Or
    }
}

/// Whether a character is recognized at all in the current mode; every
/// other character acts as a comment and is ignored.
pub open spec fn in_vocabulary(c: char, enable_ext: bool) -> bool {
    is_core_symbol(c) || c == '[' || c == ']' || (enable_ext && is_extended_symbol(c))
}

/// One left-to-right scan of the source, carrying the instructions built so
/// far and the stack of indices of pending forward jumps. On `[` the index
/// of the appended placeholder is pushed; on `]` the matching forward jump
/// is rewritten to the index the appended backward jump occupies; on `]`
/// with an empty stack the scan aborts.
pub open spec fn scan(
    src: Seq<char>,
    enable_ext: bool,
    acc: Seq<Instruction>,
    stack: Seq<usize>,
) -> Result<Seq<Instruction>, ParseError>
    decreases src.len(),
{
    if src.len() == 0 {
        if stack.len() == 0 {
            Result::Ok(acc)
        } else {
            Result::Err(ParseError::UnmatchedJump)
        }
    } else {
        let c = src[0];
        let rest = src.skip(1);
        if is_core_symbol(c) {
            scan(rest, enable_ext, acc.push(core_instruction(c)), stack)
        } else if c == '[' {
            scan(
                rest,
                enable_ext,
                acc.push(Instruction::JmpFwd(0)),
                stack.push(acc.len() as usize),
            )
        } else if c == ']' {
            if stack.len() == 0 {
                Result::Err(ParseError::UnmatchedJump)
            } else {
                scan(
                    rest,
                    enable_ext,
                    acc.update(
                        stack.last() as int,
                        Instruction::JmpFwd(acc.len() as usize),
                    ).push(Instruction::JmpBk(stack.last())),
                    stack.drop_last(),
                )
            }
        } else if enable_ext && is_extended_symbol(c) {
            scan(rest, enable_ext, acc.push(extended_instruction(c)), stack)
        } else {
            scan(rest, enable_ext, acc, stack)
        }
    }
}

/// What parsing a whole source in a given mode yields.
pub open spec fn parse_spec(src: Seq<char>, enable_ext: bool) -> Result<
    Seq<Instruction>,
    ParseError,
> {
    scan(src, enable_ext, Seq::empty(), Seq::empty())
}

/// The jump instruction at index `k`, if any, points at its matching
/// partner, which points back, and neither end is still pending on `stack`.
pub open spec fn resolved_ok(ins: Seq<Instruction>, stack: Seq<usize>, k: int) -> bool {
    match ins[k] {
        Instruction::JmpFwd(t) => k < (t as int) && (t as int) < ins.len()
            && ins[t as int] == Instruction::JmpBk(k as usize)
            && !stack.contains(t),
        Instruction::JmpBk(t) => (t as int) < k
            && ins[t as int] == Instruction::JmpFwd(k as usize)
            && !stack.contains(t),
        _ => true,
    }
}

/// Every instruction whose index is not pending on `stack` is fully
/// resolved.
pub open spec fn partial_matched(ins: Seq<Instruction>, stack: Seq<usize>) -> bool {
    forall|k: int|
        0 <= k < ins.len() && !stack.contains(k as usize) ==> #[trigger] resolved_ok(
            ins,
            stack,
            k,
        )
}

/// Every `JmpFwd` points at its uniquely matching `JmpBk` and vice versa:
/// the jump-resolution invariant of a successfully parsed sequence.
pub open spec fn jumps_matched(ins: Seq<Instruction>) -> bool {
    forall|k: int| 0 <= k < ins.len() ==> #[trigger] resolved_ok(ins, Seq::empty(), k)
}

/// The subsequence of characters the scan acts on: everything outside the
/// vocabulary of the current mode dropped.
pub open spec fn significant(src: Seq<char>, enable_ext: bool) -> Seq<char>
    decreases src.len(),
{
    if src.len() == 0 {
        Seq::empty()
    } else if in_vocabulary(src[0], enable_ext) {
        seq![src[0]] + significant(src.skip(1), enable_ext)
    } else {
        significant(src.skip(1), enable_ext)
    }
}

/// A scan started in any state reads only the vocabulary characters of the
/// source.
proof fn lemma_scan_ignores_comments(
    src: Seq<char>,
    enable_ext: bool,
    acc: Seq<Instruction>,
    stack: Seq<usize>,
)
    ensures
        scan(src, enable_ext, acc, stack) == scan(
            significant(src, enable_ext),
            enable_ext,
            acc,
            stack,
        ),
    decreases src.len(),
{
    if src.len() == 0 {
        assert(significant(src, enable_ext) =~= Seq::<char>::empty());
    } else {
        let c = src[0];
        let rest = src.skip(1);
        if in_vocabulary(c, enable_ext) {
            let sig = significant(src, enable_ext);
            assert(sig == seq![c] + significant(rest, enable_ext));
            assert(sig[0] == c);
            assert(sig.skip(1) =~= significant(rest, enable_ext));
            if is_core_symbol(c) {
                lemma_scan_ignores_comments(
                    rest,
                    enable_ext,
                    acc.push(core_instruction(c)),
                    stack,
                );
            } else if c == '[' {
                lemma_scan_ignores_comments(
                    rest,
                    enable_ext,
                    acc.push(Instruction::JmpFwd(0)),
                    stack.push(acc.len() as usize),
                );
            } else if c == ']' {
                if stack.len() > 0 {
                    lemma_scan_ignores_comments(
                        rest,
                        enable_ext,
                        acc.update(
                            stack.last() as int,
                            Instruction::JmpFwd(acc.len() as usize),
                        ).push(Instruction::JmpBk(stack.last())),
                        stack.drop_last(),
                    );
                }
            } else {
                lemma_scan_ignores_comments(
                    rest,
                    enable_ext,
                    acc.push(extended_instruction(c)),
                    stack,
                );
            }
        } else {
            lemma_scan_ignores_comments(rest, enable_ext, acc, stack);
        }
    }
}

/// Law: characters outside the vocabulary act as comments. Two sources with
/// the same significant characters parse to the very same result; in
/// particular a source parses exactly like the source with every comment
/// character removed.
pub proof fn lemma_parse_ignores_comments(src1: Seq<char>, src2: Seq<char>, enable_ext: bool)
    requires
        significant(src1, enable_ext) == significant(src2, enable_ext),
    ensures
        parse_spec(src1, enable_ext) == parse_spec(src2, enable_ext),
{
    lemma_scan_ignores_comments(src1, enable_ext, Seq::empty(), Seq::empty());
    lemma_scan_ignores_comments(src2, enable_ext, Seq::empty(), Seq::empty());
}

/// The source symbol that denotes an instruction.
pub open spec fn spec_symbol(ins: Instruction) -> char {
    match ins {
        Instruction::IncPtr => '>',
        Instruction::DecPtr => '<',
        Instruction::IncVal => '+',
        Instruction::DecVal => '-',
        Instruction::Output => '.',
        Instruction::Input => ',',
        Instruction::JmpFwd(_) => '[',
        Instruction::JmpBk(_) => ']',
        Instruction::Stop => '@',
        Instruction::Store => '$',
        Instruction::Retr => '!',
        Instruction::Rshift => '}',
        Instruction::Lshift => '{',
        Instruction::Not => '~',
        Instruction::Xor => '^',
        Instruction::And => '&',
        Instruction::Or => '|',
    }
}

impl Instruction {
    /// The source symbol that denotes this instruction.
    pub fn symbol(&self) -> (c: char)
        ensures
            c == spec_symbol(*self),
    {
        match *self {
            Instruction::IncPtr => '>',
            Instruction::DecPtr => '<',
            Instruction::IncVal => '+',
            Instruction::DecVal => '-',
            Instruction::Output => '.',
            Instruction::Input => ',',
            Instruction::JmpFwd(_) => '[',
            Instruction::JmpBk(_) => ']',
            Instruction::Stop => '@',
            Instruction::Store => '$',
            Instruction::Retr => '!',
            Instruction::Rshift => '}',
            Instruction::Lshift => '{',
            Instruction::Not => '~',
            Instruction::Xor => '^',
            Instruction::And => '&',
            Instruction::Or => '|',
        }
    }
}

/// The instruction a non-bracket character denotes in the current mode, if
/// any.
fn plain_instruction(c: char, enable_ext: bool) -> (r: Option<Instruction>)
    ensures
        r == (if is_core_symbol(c) {
            Option::Some(core_instruction(c))
        } else if enable_ext && is_extended_symbol(c) {
            Option::Some(extended_instruction(c))
        } else {
            Option::<Instruction>::None
        }),
{
    if c == '>' {
        Option::Some(Instruction::IncPtr)
    } else if c == '<' {
        Option::Some(Instruction::DecPtr)
    } else if c == '+' {
        Option::Some(Instruction::IncVal)
    } else if c == '-' {
        Option::Some(Instruction::DecVal)
    } else if c == '.' {
        Option::Some(Instruction::Output)
    } else if c == ',' {
        Option::Some(Instruction::Input)
    } else if enable_ext && c == '@' {
        Option::Some(Instruction::Stop)
    } else if enable_ext && c == '$' {
        Option::Some(Instruction::Store)
    } else if enable_ext && c == '!' {
        Option::Some(Instruction::Retr)
    } else if enable_ext && c == '}' {
        Option::Some(Instruction::Rshift)
    } else if enable_ext && c == '{' {
        Option::Some(Instruction::Lshift)
    } else if enable_ext && c == '~' {
        Option::Some(Instruction::Not)
    } else if enable_ext && c == '^' {
        Option::Some(Instruction::Xor)
    } else if enable_ext && c == '&' {
        Option::Some(Instruction::And)
    } else if enable_ext && c == '|' {
        Option::Some(Instruction::Or)
    } else {
        Option::None
    }
}

/// Parses source code into something the interpreter can understand.
/// Characters outside the recognized vocabulary are ignored as comments;
/// this includes the extended symbols when `enable_ext` is false.
///
/// On success every jump instruction carries the index of its matching
/// partner ([`jumps_matched`]). Unbalanced brackets in either direction
/// yield [`ParseError::UnmatchedJump`] and no instruction sequence at all.
pub fn parse_code(src: String, enable_ext: bool) -> (r: Result<Vec<Instruction>, ParseError>)
    ensures
        (match r {
            Result::Ok(v) => parse_spec(src@, enable_ext) == Result::<Seq<Instruction>,
                ParseError,
            >::Ok(v@) && jumps_matched(v@) && targets_ok(v@),
            Result::Err(e) => parse_spec(src@, enable_ext) == Result::<Seq<Instruction>,
                ParseError,
            >::Err(e),
        }),
{
    let mut instructions: Vec<Instruction> = Vec::new();
    let mut jmp_stack: Vec<usize> = Vec::new();
    let n = src.as_str().unicode_len();
    let mut i: usize = 0;
    proof {
        assert(src@.skip(0) =~= src@);
    }
    while i < n
        invariant
            i <= n,
            n == src@.len(),
            parse_spec(src@, enable_ext) == scan(
                src@.skip(i as int),
                enable_ext,
                instructions@,
                jmp_stack@,
            ),
            forall|j: int|
                0 <= j < jmp_stack@.len() ==> (#[trigger] jmp_stack@[j] as int)
                    < instructions@.len() && instructions@[jmp_stack@[j] as int]
                    == Instruction::JmpFwd(0usize),
            forall|a: int, b: int|
                0 <= a < b < jmp_stack@.len() ==> jmp_stack@[a] < jmp_stack@[b],
            partial_matched(instructions@, jmp_stack@),
        decreases n - i,
    {
        let ghost pre_src = src@.skip(i as int);
        let ghost old_acc = instructions@;
        let ghost old_stack = jmp_stack@;
        proof {
            assert(pre_src[0] == src@[i as int]);
            assert(pre_src.skip(1) =~= src@.skip(i as int + 1));
        }
        let c = src.as_str().get_char(i);
        if c == '[' {
            jmp_stack.push(instructions.len());
            instructions.push(Instruction::JmpFwd(0));
            proof {
                let new_acc = instructions@;
                let new_stack = jmp_stack@;
                let ghost l = old_acc.len() as int;
                assert forall|x: usize| old_stack.contains(x) implies new_stack.contains(
                    x,
                ) by {
                    let a = choose|a: int|
                        0 <= a < old_stack.len() && old_stack[a] == x;
                    assert(new_stack[a] == x);
                }
                assert forall|k: int|
                    0 <= k < new_acc.len() && !new_stack.contains(
                        k as usize,
                    ) implies #[trigger] resolved_ok(new_acc, new_stack, k) by {
                    assert(new_stack[new_stack.len() - 1] == l as usize);
                    assert(new_stack.contains(l as usize));
                    assert(k < l);
                    assert(resolved_ok(old_acc, old_stack, k));
                }
            }
        } else if c == ']' {
            if jmp_stack.len() == 0 {
                proof {
                    assert(scan(pre_src, enable_ext, old_acc, old_stack)
                        == Result::<Seq<Instruction>, ParseError>::Err(
                        ParseError::UnmatchedJump,
                    ));
                }
                return Result::Err(ParseError::UnmatchedJump);
            }
            let index = jmp_stack.pop().unwrap();
            let l = instructions.len();
            instructions[index] = Instruction::JmpFwd(l);
            instructions.push(Instruction::JmpBk(index));
            proof {
                let new_acc = instructions@;
                let new_stack = jmp_stack@;
                let j = old_stack.last();
                assert(index == j);
                assert(new_stack =~= old_stack.drop_last());
                assert(new_acc =~= old_acc.update(j as int, Instruction::JmpFwd(l)).push(
                    Instruction::JmpBk(j),
                ));
                assert(old_stack[old_stack.len() - 1] == j);
                assert(old_stack.contains(j));
                assert forall|x: usize| new_stack.contains(x) implies old_stack.contains(x)
                    && (x as int) < (j as int) by {
                    let a = choose|a: int|
                        0 <= a < new_stack.len() && new_stack[a] == x;
                    assert(old_stack[a] == x);
                    assert(old_stack[a] < old_stack[old_stack.len() - 1]);
                }
                assert(!new_stack.contains(j));
                assert(!new_stack.contains(l));
                assert forall|k: int|
                    0 <= k < new_acc.len() && !new_stack.contains(
                        k as usize,
                    ) implies #[trigger] resolved_ok(new_acc, new_stack, k) by {
                    if k == j as int {
                        assert(new_acc[k] == Instruction::JmpFwd(l));
                        assert(new_acc[l as int] == Instruction::JmpBk(j));
                    } else if k == l as int {
                        assert(new_acc[k] == Instruction::JmpBk(j));
                        assert(new_acc[j as int] == Instruction::JmpFwd(l));
                    } else {
                        assert(k < l as int);
                        if old_stack.contains(k as usize) {
                            let a = choose|a: int|
                                0 <= a < old_stack.len() && old_stack[a] == k as usize;
                            assert(a < old_stack.len() - 1);
                            assert(new_stack[a] == k as usize);
                            assert(new_stack.contains(k as usize));
                        }
                        assert(resolved_ok(old_acc, old_stack, k));
                        assert(old_acc[j as int] == Instruction::JmpFwd(0usize));
                    }
                }
                assert forall|jj: int| 0 <= jj < new_stack.len() implies (
                #[trigger] new_stack[jj] as int) < new_acc.len() && new_acc[new_stack[jj] as int]
                    == Instruction::JmpFwd(0usize) by {
                    assert(old_stack[jj] == new_stack[jj]);
                    assert(old_stack[jj] < old_stack[old_stack.len() - 1]);
                }
            }
        } else {
            match plain_instruction(c, enable_ext) {
                Option::Some(ins) => {
                    instructions.push(ins);
                    proof {
                        let new_acc = instructions@;
                        assert forall|k: int|
                            0 <= k < new_acc.len() && !jmp_stack@.contains(
                                k as usize,
                            ) implies #[trigger] resolved_ok(new_acc, jmp_stack@, k) by {
                            if k < old_acc.len() {
                                assert(resolved_ok(old_acc, old_stack, k));
                            }
                        }
                    }
                },
                Option::None => {},
            }
        }
        i = i + 1;
    }
    proof {
        assert(src@.skip(n as int) =~= Seq::<char>::empty());
    }
    if jmp_stack.len() != 0 {
        Result::Err(ParseError::UnmatchedJump)
    } else {
        proof {
            assert(jmp_stack@ =~= Seq::<usize>::empty());
            assert forall|k: int| 0 <= k < instructions@.len() implies #[trigger] resolved_ok(
                instructions@,
                Seq::empty(),
                k,
            ) by {
                assert(!jmp_stack@.contains(k as usize));
                assert(resolved_ok(instructions@, jmp_stack@, k));
            }
            assert forall|k: int| 0 <= k < instructions@.len() implies #[trigger] target_ok_at(
                instructions@,
                k,
            ) by {
                assert(resolved_ok(instructions@, Seq::empty(), k));
            }
        }
        Result::Ok(instructions)
    }
}

} // verus!
