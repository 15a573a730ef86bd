//! What linking a whole program means: the address of each label, the
//! opcodes of the instructions, and the bytes they are written out as.

use crate::error::{LinkError, LinkErrorKind};
use crate::instructions::{AssemblyView, Operation};
use crate::opcode::{lemma_address_word, opcode, INSTRUCTION_WIDTH, START_ADDR};
use vstd::prelude::*;

verus! {

/// The number of instructions in a program; labels do not count.
pub open spec fn instruction_count(prog: Seq<AssemblyView>) -> nat
    decreases prog.len(),
{
    if prog.len() == 0 {
        0
    } else if prog.last() is Instruction {
        instruction_count(prog.drop_last()) + 1
    } else {
        instruction_count(prog.drop_last())
    }
}

/// The address just behind a program that stands at the load address: where
/// its next instruction would go.
pub open spec fn address_after(prog: Seq<AssemblyView>) -> int {
    START_ADDR + INSTRUCTION_WIDTH * instruction_count(prog)
}

/// The label table of a program: each declared label with the address of
/// the instruction that follows it. A label that is declared a second time
/// is an error, at the position of the second declaration.
pub open spec fn label_table(prog: Seq<AssemblyView>) -> Result<Map<Seq<char>, u128>, LinkError>
    decreases prog.len(),
{
    if prog.len() == 0 {
        Ok(Map::empty())
    } else {
        let front = prog.drop_last();
        match label_table(front) {
            Err(e) => Err(e),
            Ok(table) => match prog.last() {
                AssemblyView::Instruction(_) => Ok(table),
                AssemblyView::Label(name) => if table.contains_key(name) {
                    Err(
                        LinkError {
                            kind: LinkErrorKind::DuplicateLabel,
                            index: front.len() as usize,
                        },
                    )
                } else {
                    Ok(table.insert(name, address_after(front) as u128))
                },
            },
        }
    }
}

/// The opcodes of a program's instructions in program order, their labels
/// looked up in `table`. The first instruction that has no opcode is an
/// error, at its position.
pub open spec fn opcodes(prog: Seq<AssemblyView>, table: Map<Seq<char>, u128>) -> Result<
    Seq<u16>,
    LinkError,
>
    decreases prog.len(),
{
    if prog.len() == 0 {
        Ok(Seq::empty())
    } else {
        let front = prog.drop_last();
        match opcodes(front, table) {
            Err(e) => Err(e),
            Ok(words) => match prog.last() {
                AssemblyView::Label(_) => Ok(words),
                AssemblyView::Instruction(op) => match opcode(op, table) {
                    Ok(w) => Ok(words.push(w)),
                    Err(kind) => Err(LinkError { kind, index: front.len() as usize }),
                },
            },
        }
    }
}

/// The bytes that a sequence of opcodes is written out as: two for each, the
/// high byte first.
pub open spec fn big_endian(words: Seq<u16>) -> Seq<u8> {
    Seq::new(
        2 * words.len(),
        |i: int|
            if i % 2 == 0 {
                (words[i / 2] / 256) as u8
            } else {
                (words[i / 2] % 256) as u8
            },
    )
}

/// The bytes that a program is assembled into: pass one makes the label
/// table, pass two the opcodes.
pub open spec fn linked(prog: Seq<AssemblyView>) -> Result<Seq<u8>, LinkError> {
    match label_table(prog) {
        Err(e) => Err(e),
        Ok(table) => match opcodes(prog, table) {
            Err(e) => Err(e),
            Ok(words) => Ok(big_endian(words)),
        },
    }
}

/// Whether the element at `i` declares the label `name`.
pub open spec fn declares(prog: Seq<AssemblyView>, i: int, name: Seq<char>) -> bool {
    0 <= i < prog.len() && prog[i] == AssemblyView::Label(name)
}

/// Whether the element at `i` is a jump or a call to the label `name`.
pub open spec fn refers_to(prog: Seq<AssemblyView>, i: int, name: Seq<char>) -> bool {
    0 <= i < prog.len() && (prog[i] == AssemblyView::Instruction(Operation::Jump(name)) || prog[i]
        == AssemblyView::Instruction(Operation::Call(name)))
}

/// An error in a part of the program that has been read is the error of the
/// whole: pass one stops at the first.
pub proof fn lemma_label_table_error(prog: Seq<AssemblyView>, n: int)
    requires
        0 <= n <= prog.len(),
        label_table(prog.take(n)) is Err,
    ensures
        label_table(prog) == label_table(prog.take(n)),
    decreases prog.len(),
{
    if n < prog.len() {
        assert(prog.drop_last().take(n) == prog.take(n));
        lemma_label_table_error(prog.drop_last(), n);
    } else {
        assert(prog.take(n) == prog);
    }
}

/// An error in a part of the program that has been read is the error of the
/// whole: pass two stops at the first.
pub proof fn lemma_opcodes_error(prog: Seq<AssemblyView>, table: Map<Seq<char>, u128>, n: int)
    requires
        0 <= n <= prog.len(),
        opcodes(prog.take(n), table) is Err,
    ensures
        opcodes(prog, table) == opcodes(prog.take(n), table),
    decreases prog.len(),
{
    if n < prog.len() {
        assert(prog.drop_last().take(n) == prog.take(n));
        lemma_opcodes_error(prog.drop_last(), table, n);
    } else {
        assert(prog.take(n) == prog);
    }
}

/// A part of a program holds no more instructions than it has elements.
pub proof fn lemma_instruction_count_bound(prog: Seq<AssemblyView>)
    ensures
        instruction_count(prog) <= prog.len(),
    decreases prog.len(),
{
    if prog.len() > 0 {
        lemma_instruction_count_bound(prog.drop_last());
    }
}

/// The label table holds the labels that the program declares, and no
/// others.
pub proof fn lemma_label_table_domain(prog: Seq<AssemblyView>, name: Seq<char>)
    requires
        label_table(prog) is Ok,
    ensures
        label_table(prog)->Ok_0.contains_key(name) <==> exists|i: int| declares(prog, i, name),
    decreases prog.len(),
{
    let table = label_table(prog)->Ok_0;
    if prog.len() > 0 {
        let front = prog.drop_last();
        lemma_label_table_domain(front, name);
        if table.contains_key(name) {
            if label_table(front)->Ok_0.contains_key(name) {
                let i = choose|i: int| declares(front, i, name);
                assert(declares(prog, i, name));
            } else {
                assert(declares(prog, prog.len() - 1, name));
            }
        }
        if exists|i: int| declares(prog, i, name) {
            let i = choose|i: int| declares(prog, i, name);
            if i < prog.len() - 1 {
                assert(declares(front, i, name));
            }
        }
    }
}

/// The address of a label is the load address and two more for each
/// instruction that stands before it.
pub proof fn lemma_label_address(prog: Seq<AssemblyView>, i: int, name: Seq<char>)
    requires
        prog.len() <= usize::MAX,
        label_table(prog) is Ok,
        declares(prog, i, name),
    ensures
        label_table(prog)->Ok_0.contains_key(name),
        label_table(prog)->Ok_0[name] == 0x200 + 2 * instruction_count(prog.take(i)),
    decreases prog.len(),
{
    let front = prog.drop_last();
    if i == prog.len() - 1 {
        assert(prog.take(i) == front);
        lemma_instruction_count_bound(front);
    } else {
        assert(declares(front, i, name));
        assert(front.take(i) == prog.take(i));
        lemma_label_address(front, i, name);
    }
}

/// A label that is declared twice makes pass one fail, whatever stands
/// between the two declarations.
pub proof fn lemma_duplicate_label(prog: Seq<AssemblyView>, i: int, j: int, name: Seq<char>)
    requires
        i < j,
        declares(prog, i, name),
        declares(prog, j, name),
    ensures
        label_table(prog) is Err,
        label_table(prog)->Err_0.kind == LinkErrorKind::DuplicateLabel,
    decreases prog.len(),
{
    let front = prog.drop_last();
    if j == prog.len() - 1 {
        if label_table(front) is Ok {
            assert(declares(front, i, name));
            lemma_label_table_domain(front, name);
        } else {
            lemma_label_table_failure(front);
        }
    } else {
        assert(declares(front, i, name));
        assert(declares(front, j, name));
        lemma_duplicate_label(front, i, j, name);
    }
}

/// Where pass one fails, it fails at the first declaration of a label that
/// was declared before.
pub proof fn lemma_label_table_failure(prog: Seq<AssemblyView>)
    requires
        label_table(prog) is Err,
    ensures
        label_table(prog)->Err_0.kind == LinkErrorKind::DuplicateLabel,
        prog.len() <= usize::MAX ==> {
            let j = label_table(prog)->Err_0.index as int;
            &&& 0 <= j < prog.len()
            &&& prog[j] is Label
            &&& exists|i: int| i < j && declares(prog, i, prog[j]->Label_0)
            &&& label_table(prog.take(j)) is Ok
        },
    decreases prog.len(),
{
    let front = prog.drop_last();
    if label_table(front) is Err {
        lemma_label_table_failure(front);
        if prog.len() <= usize::MAX {
            let j = label_table(prog)->Err_0.index as int;
            let i = choose|i: int| i < j && declares(front, i, front[j]->Label_0);
            assert(declares(prog, i, prog[j]->Label_0));
            assert(front.take(j) == prog.take(j));
        }
    } else {
        if prog.len() <= usize::MAX {
            let j = prog.len() - 1;
            let name = prog[j]->Label_0;
            lemma_label_table_domain(front, name);
            let i = choose|i: int| declares(front, i, name);
            assert(i < j && declares(prog, i, name));
            assert(prog.take(j) == front);
        }
    }
}

/// Pass one succeeds on a program in which no label is declared twice.
pub proof fn lemma_distinct_labels(prog: Seq<AssemblyView>)
    requires
        forall|i: int, j: int, name: Seq<char>|
            declares(prog, i, name) && declares(prog, j, name) ==> i == j,
    ensures
        label_table(prog) is Ok,
    decreases prog.len(),
{
    if prog.len() > 0 {
        let front = prog.drop_last();
        assert forall|i: int, j: int, name: Seq<char>|
            declares(front, i, name) && declares(front, j, name) implies i == j by {
            assert(declares(prog, i, name) && declares(prog, j, name));
        }
        lemma_distinct_labels(front);
        if let AssemblyView::Label(name) = prog.last() {
            if label_table(front)->Ok_0.contains_key(name) {
                lemma_label_table_domain(front, name);
                let i = choose|i: int| declares(front, i, name);
                assert(declares(prog, i, name));
                assert(declares(prog, prog.len() - 1, name));
            }
        }
    }
}

/// Where pass two succeeds there is one opcode for each instruction, and the
/// opcode of an instruction stands where as many opcodes precede it as
/// instructions precede the instruction.
pub proof fn lemma_opcodes_in_order(
    prog: Seq<AssemblyView>,
    table: Map<Seq<char>, u128>,
    i: int,
)
    requires
        opcodes(prog, table) is Ok,
        0 <= i < prog.len(),
        prog[i] is Instruction,
    ensures
        opcodes(prog, table)->Ok_0.len() == instruction_count(prog),
        instruction_count(prog.take(i)) < instruction_count(prog),
        opcode(prog[i]->Instruction_0, table) == Ok::<u16, LinkErrorKind>(
            opcodes(prog, table)->Ok_0[instruction_count(prog.take(i)) as int],
        ),
    decreases prog.len(),
{
    let front = prog.drop_last();
    lemma_opcodes_len(prog, table);
    lemma_opcodes_len(front, table);
    if i == prog.len() - 1 {
        assert(prog.take(i) == front);
    } else {
        assert(front.take(i) == prog.take(i));
        lemma_opcodes_in_order(front, table, i);
    }
}

/// Where pass two succeeds there is one opcode for each instruction.
pub proof fn lemma_opcodes_len(prog: Seq<AssemblyView>, table: Map<Seq<char>, u128>)
    requires
        opcodes(prog, table) is Ok,
    ensures
        opcodes(prog, table)->Ok_0.len() == instruction_count(prog),
    decreases prog.len(),
{
    if prog.len() > 0 {
        lemma_opcodes_len(prog.drop_last(), table);
    }
}

/// Where pass two fails, it fails at the first instruction that has no
/// opcode, for the reason that it has none.
pub proof fn lemma_opcodes_failure(prog: Seq<AssemblyView>, table: Map<Seq<char>, u128>)
    requires
        prog.len() <= usize::MAX,
        opcodes(prog, table) is Err,
    ensures
        ({
            let e = opcodes(prog, table)->Err_0;
            let i = e.index as int;
            &&& 0 <= i < prog.len()
            &&& prog[i] is Instruction
            &&& opcode(prog[i]->Instruction_0, table) == Err::<u16, LinkErrorKind>(e.kind)
            &&& opcodes(prog.take(i), table) is Ok
        }),
    decreases prog.len(),
{
    let front = prog.drop_last();
    if opcodes(front, table) is Err {
        lemma_opcodes_failure(front, table);
        let i = opcodes(prog, table)->Err_0.index as int;
        assert(front.take(i) == prog.take(i));
    } else {
        assert(prog.take(prog.len() - 1) == front);
    }
}

/// Pass two succeeds on a program in which every instruction has an opcode.
pub proof fn lemma_opcodes_success(prog: Seq<AssemblyView>, table: Map<Seq<char>, u128>)
    requires
        forall|i: int|
            0 <= i < prog.len() && prog[i] is Instruction ==> opcode(
                prog[i]->Instruction_0,
                table,
            ) is Ok,
    ensures
        opcodes(prog, table) is Ok,
    decreases prog.len(),
{
    if prog.len() > 0 {
        let front = prog.drop_last();
        assert forall|i: int| 0 <= i < front.len() && front[i] is Instruction implies opcode(
            front[i]->Instruction_0,
            table,
        ) is Ok by {
            assert(front[i] == prog[i]);
        }
        lemma_opcodes_success(front, table);
    }
}

/// A jump or a call to a label that the program declares nowhere makes the
/// link fail; where nothing before it fails, it fails there, as an undefined
/// label.
pub proof fn lemma_undefined_label(prog: Seq<AssemblyView>, i: int, name: Seq<char>)
    requires
        prog.len() <= usize::MAX,
        refers_to(prog, i, name),
        forall|j: int| !declares(prog, j, name),
    ensures
        linked(prog) is Err,
        label_table(prog) is Ok && opcodes(prog.take(i), label_table(prog)->Ok_0) is Ok
            ==> linked(prog) == Err::<Seq<u8>, LinkError>(
            LinkError { kind: LinkErrorKind::UndefinedLabel, index: i as usize },
        ),
{
    if label_table(prog) is Ok {
        let table = label_table(prog)->Ok_0;
        lemma_label_table_domain(prog, name);
        assert(!table.contains_key(name));
        assert(prog.take(i + 1).drop_last() == prog.take(i));
        assert(prog.take(i + 1).last() == prog[i]);
        if opcodes(prog.take(i), table) is Ok {
            lemma_opcodes_error(prog, table, i + 1);
        } else {
            lemma_opcodes_error(prog, table, i);
        }
    }
}

/// A jump or a call to a declared label is packed with the label's address:
/// the load address and two more for each instruction before the label. It
/// has an opcode exactly if that address fits twelve bits.
pub proof fn lemma_jump_to_label(prog: Seq<AssemblyView>, i: int, name: Seq<char>)
    requires
        prog.len() <= usize::MAX,
        label_table(prog) is Ok,
        declares(prog, i, name),
    ensures
        ({
            let table = label_table(prog)->Ok_0;
            let target = address_after(prog.take(i));
            if target <= 0xFFF {
                &&& opcode(Operation::Jump(name), table) == Ok::<u16, LinkErrorKind>(
                    (0x1000 + target) as u16,
                )
                &&& opcode(Operation::Call(name), table) == Ok::<u16, LinkErrorKind>(
                    (0x2000 + target) as u16,
                )
            } else {
                &&& opcode(Operation::Jump(name), table) == Err::<u16, LinkErrorKind>(
                    LinkErrorKind::OutOfRange,
                )
                &&& opcode(Operation::Call(name), table) == Err::<u16, LinkErrorKind>(
                    LinkErrorKind::OutOfRange,
                )
            }
        }),
{
    let target = address_after(prog.take(i));
    lemma_label_address(prog, i, name);
    if target <= 0xFFF {
        lemma_address_word(1, target);
        lemma_address_word(2, target);
    }
}

/// Every instruction becomes two bytes, the high byte of its opcode first.
pub proof fn lemma_big_endian(words: Seq<u16>, k: int)
    requires
        0 <= k < words.len(),
    ensures
        big_endian(words).len() == 2 * words.len(),
        big_endian(words)[2 * k] == words[k] / 256,
        big_endian(words)[2 * k + 1] == words[k] % 256,
        words[k] == big_endian(words)[2 * k] * 256 + big_endian(words)[2 * k + 1],
{
}

} // verus!
