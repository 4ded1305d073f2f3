//! Parsing of source bytes into a command sequence with resolved jumps.
//!
//! By default the parser is permissive: every byte that is not one of the
//! eight command characters is treated as a comment and skipped. A strict
//! mode, which tolerates only whitespace besides the commands, is offered
//! as an option.

use vstd::prelude::*;

verus! {

/// The position of a bracket command and the position of its partner.
#[derive(Debug, Clone, Copy, PartialEq, Eq, Structural)]
pub struct Jump {
    pub index: usize,
    pub pair_index: usize,
}

/// One instruction of a parsed program.
#[derive(Debug, Clone, Copy, PartialEq, Eq, Structural)]
pub enum Command {
    IncrementPtr,
    DecrementPtr,
    IncrementValue,
    DecrementValue,
    Output,
    Input,
    JumpForward(Jump),
    JumpBackward(Jump),
}

/// Which bracket a source has too many of.
#[derive(Debug, Clone, Copy, PartialEq, Eq, Structural)]
pub enum Bracket {
    Open,
    Close,
}

/// Why a source was rejected.
#[derive(Debug, Clone, Copy, PartialEq, Eq, Structural)]
pub enum ParseError {
    /// The source has length zero.
    EmptyProgram,
    /// The brackets do not nest; the payload names the surplus bracket.
    UnbalancedBrackets(Bracket),
    /// Under the strict policy, the source holds a byte that is neither a
    /// command character nor whitespace.
    InvalidCharacter,
}

/// How bytes that are not command characters are treated.
#[derive(Debug, Clone, Copy, PartialEq, Eq, Structural)]
pub enum Policy {
    /// Every such byte is a comment and is skipped. This is the default.
    Permissive,
    /// Whitespace is skipped; any other such byte rejects the source.
    Strict,
}

pub const MOVE_RIGHT: u8 = 62;

pub const MOVE_LEFT: u8 = 60;

pub const PLUS: u8 = 43;

pub const MINUS: u8 = 45;

pub const DOT: u8 = 46;

pub const COMMA: u8 = 44;

pub const OPEN: u8 = 91;

pub const CLOSE: u8 = 93;

/// The command that a byte other than a bracket stands for, if any.
pub open spec fn plain_command(b: u8) -> Option<Command> {
    if b == MOVE_RIGHT {
        Some(Command::IncrementPtr)
    } else if b == MOVE_LEFT {
        Some(Command::DecrementPtr)
    } else if b == PLUS {
        Some(Command::IncrementValue)
    } else if b == MINUS {
        Some(Command::DecrementValue)
    } else if b == DOT {
        Some(Command::Output)
    } else if b == COMMA {
        Some(Command::Input)
    } else {
        None
    }
}

/// Whether a byte is one of the eight command characters.
pub open spec fn is_command(b: u8) -> bool {
    b == OPEN || b == CLOSE || plain_command(b).is_some()
}

/// The command characters of a source, in order, with comments removed.
pub open spec fn commands(src: Seq<u8>) -> Seq<u8>
    decreases src.len(),
{
    if src.len() == 0 {
        Seq::empty()
    } else if is_command(src.last()) {
        commands(src.drop_last()).push(src.last())
    } else {
        commands(src.drop_last())
    }
}

/// The change in nesting depth that a byte causes.
pub open spec fn bracket_delta(b: u8) -> int {
    if b == OPEN {
        1
    } else if b == CLOSE {
        -1
    } else {
        0
    }
}

/// The nesting depth after the first `k` bytes of `code`: the number of
/// opening brackets among them minus the number of closing ones.
pub open spec fn depth(code: Seq<u8>, k: int) -> int
    decreases k,
{
    if k <= 0 {
        0
    } else {
        depth(code, k - 1) + bracket_delta(code[k - 1])
    }
}

/// Some prefix of `code` closes more brackets than it has opened.
pub open spec fn closes_early(code: Seq<u8>) -> bool {
    exists|k: int| 0 <= k <= code.len() && #[trigger] depth(code, k) < 0
}

/// Every bracket of `code` has a partner.
pub open spec fn balanced(code: Seq<u8>) -> bool {
    !closes_early(code) && depth(code, code.len() as int) == 0
}

/// The error that a source is rejected with, if it is rejected: an empty
/// source as empty, otherwise a source that closes a bracket it has not
/// opened as having too many closing brackets, otherwise one that leaves a
/// bracket open as having too many opening brackets.
pub open spec fn rejection(src: Seq<u8>) -> Option<ParseError> {
    let code = commands(src);
    if src.len() == 0 {
        Some(ParseError::EmptyProgram)
    } else if closes_early(code) {
        Some(ParseError::UnbalancedBrackets(Bracket::Close))
    } else if depth(code, code.len() as int) > 0 {
        Some(ParseError::UnbalancedBrackets(Bracket::Open))
    } else {
        None
    }
}

/// Space, tab, line feed or carriage return.
pub open spec fn is_whitespace(b: u8) -> bool {
    b == 32 || b == 9 || b == 10 || b == 13
}

/// Every byte of the source is a command character or whitespace.
pub open spec fn all_tolerated(src: Seq<u8>) -> bool {
    forall|i: int| 0 <= i < src.len() ==> is_command(#[trigger] src[i]) || is_whitespace(src[i])
}

/// The error that a source is rejected with under a policy, if it is
/// rejected. The strict policy reports a byte it does not tolerate before
/// it looks at the brackets.
pub open spec fn rejection_under(policy: Policy, src: Seq<u8>) -> Option<ParseError> {
    if policy == Policy::Strict && src.len() > 0 && !all_tolerated(src) {
        Some(ParseError::InvalidCharacter)
    } else {
        rejection(src)
    }
}

/// A source is accepted exactly if it is not empty and its brackets are
/// balanced.
pub proof fn lemma_accepted_iff_balanced(src: Seq<u8>)
    ensures
        rejection(src).is_none() <==> src.len() > 0 && balanced(commands(src)),
{
    let code = commands(src);
    if !closes_early(code) {
    }
}

/// The bracket at `i` opens the loop that the bracket at `j` closes: the
/// depth returns to its value before `i` for the first time after `j`.
pub open spec fn matched(code: Seq<u8>, i: int, j: int) -> bool {
    &&& 0 <= i < j < code.len()
    &&& code[i] == OPEN
    &&& code[j] == CLOSE
    &&& depth(code, j + 1) == depth(code, i)
    &&& forall|k: int| i < k <= j ==> #[trigger] depth(code, k) > depth(code, i)
}

/// The command at position `k` of `prog` is the one that `code[k]` stands
/// for, and if it is a bracket it records its own position and that of its
/// partner.
pub open spec fn resolved_at(code: Seq<u8>, prog: Seq<Command>, k: int) -> bool {
    match prog[k] {
        Command::JumpForward(j) => j.index == k && matched(code, k, j.pair_index as int),
        Command::JumpBackward(j) => j.index == k && matched(code, j.pair_index as int, k),
        c => plain_command(code[k]) == Some(c),
    }
}

/// `prog` is the program that `code` denotes.
pub open spec fn resolved(code: Seq<u8>, prog: Seq<Command>) -> bool {
    &&& prog.len() == code.len()
    &&& forall|k: int| 0 <= k < code.len() ==> #[trigger] resolved_at(code, prog, k)
}

/// The depth after `k` bytes depends on the first `k` bytes only.
pub proof fn lemma_depth_agree(a: Seq<u8>, b: Seq<u8>, k: int)
    requires
        0 <= k <= a.len(),
        k <= b.len(),
        forall|i: int| 0 <= i < k ==> a[i] == b[i],
    ensures
        depth(a, k) == depth(b, k),
    decreases k,
{
    if k > 0 {
        lemma_depth_agree(a, b, k - 1);
    }
}

/// The commands of a prefix of a source are a prefix of the commands of
/// a longer prefix.
pub proof fn lemma_commands_prefix(src: Seq<u8>, n: int, m: int)
    requires
        0 <= n <= m <= src.len(),
    ensures
        commands(src.take(n)).len() <= commands(src.take(m)).len(),
        forall|i: int|
            0 <= i < commands(src.take(n)).len() ==> commands(src.take(n))[i] == commands(
                src.take(m),
            )[i],
    decreases m - n,
{
    if n < m {
        lemma_commands_prefix(src, n, m - 1);
        assert(src.take(m).drop_last() =~= src.take(m - 1));
    }
}

/// A bracket has at most one partner, on either side.
pub proof fn lemma_matched_unique(code: Seq<u8>, i: int, j: int, i2: int, j2: int)
    requires
        matched(code, i, j),
        matched(code, i2, j2),
    ensures
        i == i2 <==> j == j2,
{
}

/// In the program that a source denotes, the two commands of every matched
/// bracket pair record each other's position.
pub proof fn lemma_pairs_point_at_each_other(code: Seq<u8>, prog: Seq<Command>, i: int, j: int)
    requires
        resolved(code, prog),
        matched(code, i, j),
    ensures
        j <= usize::MAX,
        prog[i] == Command::JumpForward(Jump { index: i as usize, pair_index: j as usize }),
        prog[j] == Command::JumpBackward(Jump { index: j as usize, pair_index: i as usize }),
{
    assert(resolved_at(code, prog, i));
    assert(resolved_at(code, prog, j));
    if let Command::JumpForward(f) = prog[i] {
        lemma_matched_unique(code, i, j, i, f.pair_index as int);
    }
    if let Command::JumpBackward(b) = prog[j] {
        lemma_matched_unique(code, i, j, b.pair_index as int, j);
    }
}

/// The two commands of every matched bracket pair of `code` record each
/// other's position in `prog`.
pub open spec fn pairs_linked(code: Seq<u8>, prog: Seq<Command>) -> bool {
    forall|i: int, j: int| #[trigger]
        matched(code, i, j) ==> {
            &&& j <= usize::MAX
            &&& prog[i] == Command::JumpForward(Jump { index: i as usize, pair_index: j as usize })
            &&& prog[j] == Command::JumpBackward(Jump { index: j as usize, pair_index: i as usize })
        }
}

/// In the program that a code denotes, all matched pairs are linked.
pub proof fn lemma_resolved_pairs_linked(code: Seq<u8>, prog: Seq<Command>)
    requires
        resolved(code, prog),
    ensures
        pairs_linked(code, prog),
{
    assert forall|i: int, j: int| #[trigger] matched(code, i, j) implies {
        &&& j <= usize::MAX
        &&& prog[i] == Command::JumpForward(Jump { index: i as usize, pair_index: j as usize })
        &&& prog[j] == Command::JumpBackward(Jump { index: j as usize, pair_index: i as usize })
    } by {
        lemma_pairs_point_at_each_other(code, prog, i, j);
    }
}

/// A code denotes at most one program.
pub proof fn lemma_resolved_unique(code: Seq<u8>, a: Seq<Command>, b: Seq<Command>)
    requires
        resolved(code, a),
        resolved(code, b),
    ensures
        a == b,
{
    assert forall|k: int| 0 <= k < code.len() implies a[k] == b[k] by {
        assert(resolved_at(code, a, k));
        assert(resolved_at(code, b, k));
        match a[k] {
            Command::JumpForward(j) => {
                lemma_pairs_point_at_each_other(code, b, k, j.pair_index as int);
            },
            Command::JumpBackward(j) => {
                lemma_pairs_point_at_each_other(code, b, j.pair_index as int, k);
            },
            _ => {},
        }
    }
}

/// The command that a byte other than a bracket stands for, if any.
pub fn decode_plain(b: u8) -> (r: Option<Command>)
    ensures
        r == plain_command(b),
{
    if b == MOVE_RIGHT {
        Some(Command::IncrementPtr)
    } else if b == MOVE_LEFT {
        Some(Command::DecrementPtr)
    } else if b == PLUS {
        Some(Command::IncrementValue)
    } else if b == MINUS {
        Some(Command::DecrementValue)
    } else if b == DOT {
        Some(Command::Output)
    } else if b == COMMA {
        Some(Command::Input)
    } else {
        None
    }
}

/// What the scan knows after reading a prefix of the source whose command
/// characters are `code`: `stack` holds the positions of the brackets that
/// are still open, innermost last, and every other position is resolved.
spec fn scanned(code: Seq<u8>, prog: Seq<Command>, stack: Seq<usize>) -> bool {
    &&& prog.len() == code.len()
    &&& !closes_early(code)
    &&& stack.len() == depth(code, code.len() as int)
    &&& forall|t: int|
        0 <= t < stack.len() ==> {
            &&& (#[trigger] stack[t]) < code.len()
            &&& code[stack[t] as int] == OPEN
            &&& depth(code, stack[t] as int) == t
            &&& forall|k: int| stack[t] < k <= code.len() ==> #[trigger] depth(code, k) > t
        }
    &&& forall|k: int|
        0 <= k < code.len() ==> #[trigger] resolved_at(code, prog, k) || stack.contains(k as usize)
}

/// A resolved position stays resolved when the code grows at its end and
/// the program changes elsewhere.
proof fn lemma_resolved_at_stable(
    code: Seq<u8>,
    prog: Seq<Command>,
    code2: Seq<u8>,
    prog2: Seq<Command>,
    k: int,
)
    requires
        0 <= k < code.len(),
        code.len() <= code2.len(),
        forall|i: int| 0 <= i < code.len() ==> code[i] == code2[i],
        prog2[k] == prog[k],
        resolved_at(code, prog, k),
    ensures
        resolved_at(code2, prog2, k),
{
    assert forall|m: int| 0 <= m <= code.len() implies depth(code, m) == depth(code2, m) by {
        lemma_depth_agree(code, code2, m);
    }
}

/// Appending a byte to the code leaves the depth of every old prefix as it
/// was and adds the byte's own change at the end.
proof fn lemma_depth_push(code: Seq<u8>, b: u8)
    ensures
        forall|m: int| 0 <= m <= code.len() ==> depth(code, m) == #[trigger] depth(code.push(b), m),
        depth(code.push(b), (code.len() + 1) as int) == depth(code, code.len() as int) + bracket_delta(b),
{
    assert forall|m: int| 0 <= m <= code.len() implies depth(code, m) == #[trigger] depth(
        code.push(b),
        m,
    ) by {
        lemma_depth_agree(code, code.push(b), m);
    }
    assert(depth(code.push(b), code.len() as int) == depth(code, code.len() as int));
}

/// Parses a source into a program.
///
/// Bytes that are not command characters are skipped. A source of length
/// zero is rejected as empty; a closing bracket with no open partner, or an
/// opening bracket that is never closed, is rejected as unbalanced. In the
/// program returned, each command is the one its character stands for and
/// each bracket records its own position and that of its partner.
pub fn parse(p: Vec<u8>) -> (r: Result<Vec<Command>, ParseError>)
    ensures
        r.is_ok() <==> p@.len() > 0 && balanced(commands(p@)),
        match r {
            Ok(prog) => {
                &&& rejection(p@).is_none()
                &&& resolved(commands(p@), prog@)
                &&& pairs_linked(commands(p@), prog@)
            },
            Err(e) => rejection(p@) == Some(e),
        },
{
    proof {
        lemma_accepted_iff_balanced(p@);
    }
    if p.len() == 0 {
        return Err(ParseError::EmptyProgram);
    }
    let mut program: Vec<Command> = Vec::new();
    let mut jump_stack: Vec<usize> = Vec::new();
    let mut n: usize = 0;
    while n < p.len()
        invariant
            n <= p.len(),
            program@.len() <= n,
            scanned(commands(p@.take(n as int)), program@, jump_stack@),
        decreases p.len() - n,
    {
        let c = p[n];
        let len = program.len();
        let ghost code = commands(p@.take(n as int));
        let ghost code2 = commands(p@.take(n + 1));
        let ghost prog = program@;
        let ghost stack = jump_stack@;
        proof {
            assert(p@.take(n + 1).drop_last() =~= p@.take(n as int));
            lemma_depth_push(code, c);
        }
        if c == OPEN {
            jump_stack.push(len);
            program.push(Command::JumpForward(Jump { index: len, pair_index: 0 }));
            proof {
                assert forall|k: int| 0 <= k < code2.len() implies #[trigger] resolved_at(
                    code2,
                    program@,
                    k,
                ) || jump_stack@.contains(k as usize) by {
                    if k == len {
                        assert(jump_stack@[stack.len() as int] == len);
                    } else if resolved_at(code, prog, k) {
                        lemma_resolved_at_stable(code, prog, code2, program@, k);
                    } else {
                        let t = choose|t: int| 0 <= t < stack.len() && stack[t] == k as usize;
                        assert(jump_stack@[t] == k as usize);
                    }
                }
            }
        } else if c == CLOSE {
            match jump_stack.pop() {
                Some(i) => {
                    program.set(i, Command::JumpForward(Jump { index: i, pair_index: len }));
                    program.push(Command::JumpBackward(Jump { index: len, pair_index: i }));
                    proof {
                        assert forall|k: int| 0 <= k < code2.len() implies #[trigger] resolved_at(
                            code2,
                            program@,
                            k,
                        ) || jump_stack@.contains(k as usize) by {
                            if k != len && k != i {
                                if resolved_at(code, prog, k) {
                                    lemma_resolved_at_stable(code, prog, code2, program@, k);
                                } else {
                                    let t = choose|t: int|
                                        0 <= t < stack.len() && stack[t] == k as usize;
                                    assert(jump_stack@[t] == k as usize);
                                }
                            }
                        }
                    }
                },
                None => {
                    proof {
                        assert(p@.take(p@.len() as int) =~= p@);
                        lemma_commands_prefix(p@, n + 1, p@.len() as int);
                        lemma_depth_agree(code2, commands(p@), code2.len() as int);
                    }
                    return Err(ParseError::UnbalancedBrackets(Bracket::Close));
                },
            }
        } else {
            match decode_plain(c) {
                Some(cmd) => {
                    program.push(cmd);
                    proof {
                        assert forall|k: int| 0 <= k < code2.len() implies #[trigger] resolved_at(
                            code2,
                            program@,
                            k,
                        ) || jump_stack@.contains(k as usize) by {
                            if k != len && resolved_at(code, prog, k) {
                                lemma_resolved_at_stable(code, prog, code2, program@, k);
                            }
                        }
                    }
                },
                None => {},
            }
        }
        n += 1;
    }
    assert(p@.take(n as int) =~= p@);
    if jump_stack.len() != 0 {
        Err(ParseError::UnbalancedBrackets(Bracket::Open))
    } else {
        proof {
            let code = commands(p@);
            assert(jump_stack@ =~= Seq::<usize>::empty());
            lemma_resolved_pairs_linked(code, program@);
        }
        Ok(program)
    }
}

/// Whether a byte is a command character or whitespace.
pub fn is_tolerated(b: u8) -> (r: bool)
    ensures
        r == (is_command(b) || is_whitespace(b)),
{
    b == OPEN || b == CLOSE || decode_plain(b).is_some() || b == 32 || b == 9 || b == 10 || b == 13
}

/// Parses a source under the given policy. Under the permissive policy this
/// is `parse`. Under the strict policy a source that is not empty and holds
/// a byte that is neither a command character nor whitespace is rejected as
/// having an invalid character; every other source is parsed as `parse`
/// does.
pub fn parse_with(p: Vec<u8>, policy: Policy) -> (r: Result<Vec<Command>, ParseError>)
    ensures
        match r {
            Ok(prog) => rejection_under(policy, p@).is_none() && resolved(commands(p@), prog@),
            Err(e) => rejection_under(policy, p@) == Some(e),
        },
{
    match policy {
        Policy::Permissive => {},
        Policy::Strict => {
            let mut n: usize = 0;
            while n < p.len()
                invariant
                    policy == Policy::Strict,
                    n <= p.len(),
                    all_tolerated(p@.take(n as int)),
                decreases p.len() - n,
            {
                if !is_tolerated(p[n]) {
                    return Err(ParseError::InvalidCharacter);
                }
                n += 1;
            }
            assert(p@.take(n as int) =~= p@);
        },
    }
    parse(p)
}

} // verus!
