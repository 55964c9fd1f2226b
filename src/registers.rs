//! The register bank: four lookup tables from register mnemonics to the
//! 8-bit codes that are packed into instruction words.
use vstd::prelude::*;

use crate::text::chars_of;

verus! {

/// Code of the hard-wired zero register.
pub const ZERO_CODE: u8 = 0;

/// Code of the program counter.
pub const PC_CODE: u8 = 41;

/// One of the four register tables that an operand position may admit.
#[derive(Clone, Copy, Debug, PartialEq, Eq, Structural)]
pub enum RegisterTable {
    /// Every register: `ZERO`, the forty general registers and `PC`.
    All,
    /// Every register but `ZERO`.
    NonZero,
    /// Every register but `PC`.
    NonPc,
    /// The forty general registers only.
    General,
}

/// Index of a bank letter: `A`, `B`, `C`, `D` in that order.
pub open spec fn bank_index(c: char) -> Option<u8> {
    if c == 'A' {
        Some(0u8)
    } else if c == 'B' {
        Some(1u8)
    } else if c == 'C' {
        Some(2u8)
    } else if c == 'D' {
        Some(3u8)
    } else {
        None
    }
}

/// Slot of a register within its bank, from the characters after the bank
/// letter: `1`..`4` are slots 1..4, `R1`..`R3` are 5..7, then `SS` 8,
/// `SP` 9 and `DS` 10.
pub open spec fn bank_slot(n: Seq<char>) -> Option<u8> {
    if n.len() == 2 && '1' <= n[1] <= '4' {
        Some((n[1] as u32 - '0' as u32) as u8)
    } else if n.len() == 3 && n[1] == 'R' && '1' <= n[2] <= '3' {
        Some((n[2] as u32 - '0' as u32 + 4) as u8)
    } else if n.len() == 3 && n[1] == 'S' && n[2] == 'S' {
        Some(8u8)
    } else if n.len() == 3 && n[1] == 'S' && n[2] == 'P' {
        Some(9u8)
    } else if n.len() == 3 && n[1] == 'D' && n[2] == 'S' {
        Some(10u8)
    } else {
        None
    }
}

/// Code of a general-purpose register: ten codes per bank, bank `A`
/// holding 1..10, `B` 11..20, `C` 21..30 and `D` 31..40.
pub open spec fn general_code(n: Seq<char>) -> Option<u8> {
    if n.len() >= 2 && bank_index(n[0]) is Some && bank_slot(n) is Some {
        Some((10 * bank_index(n[0])->0 + bank_slot(n)->0) as u8)
    } else {
        None
    }
}

pub open spec fn is_zero_name(n: Seq<char>) -> bool {
    n == seq!['Z', 'E', 'R', 'O']
}

pub open spec fn is_pc_name(n: Seq<char>) -> bool {
    n == seq!['P', 'C']
}

/// The code that `table` gives the register named `n`, if it holds one.
pub open spec fn table_code(table: RegisterTable, n: Seq<char>) -> Option<u8> {
    if is_zero_name(n) {
        match table {
            RegisterTable::All | RegisterTable::NonPc => Some(ZERO_CODE),
            _ => None,
        }
    } else if is_pc_name(n) {
        match table {
            RegisterTable::All | RegisterTable::NonZero => Some(PC_CODE),
            _ => None,
        }
    } else {
        general_code(n)
    }
}

/// Whether `code` is the code of some register in `table`.
pub open spec fn table_has_code(table: RegisterTable, code: u8) -> bool {
    match table {
        RegisterTable::All => code <= 41,
        RegisterTable::NonZero => 1 <= code <= 41,
        RegisterTable::NonPc => code <= 40,
        RegisterTable::General => 1 <= code <= 40,
    }
}

/// Every code that a table gives out belongs to that table.
pub proof fn lemma_table_code_in_table(table: RegisterTable, n: Seq<char>)
    ensures
        table_code(table, n) matches Some(c) ==> table_has_code(table, c),
{
}

fn slot_of(n: &Vec<char>) -> (r: Option<u8>)
    requires
        n@.len() >= 2,
    ensures
        r == bank_slot(n@),
{
    let len = n.len();
    let c1 = n[1];
    if len == 2 {
        if '1' <= c1 && c1 <= '4' {
            return Some((c1 as u32 - '0' as u32) as u8);
        }
        return None;
    }
    if len != 3 {
        return None;
    }
    let c2 = n[2];
    if c1 == 'R' && '1' <= c2 && c2 <= '3' {
        Some((c2 as u32 - '0' as u32 + 4) as u8)
    } else if c1 == 'S' && c2 == 'S' {
        Some(8)
    } else if c1 == 'S' && c2 == 'P' {
        Some(9)
    } else if c1 == 'D' && c2 == 'S' {
        Some(10)
    } else {
        None
    }
}

fn general_lookup(n: &Vec<char>) -> (r: Option<u8>)
    ensures
        r == general_code(n@),
{
    if n.len() < 2 {
        return None;
    }
    let bank: u8 = match n[0] {
        'A' => 0,
        'B' => 1,
        'C' => 2,
        'D' => 3,
        _ => {
            return None;
        },
    };
    match slot_of(n) {
        Some(slot) => Some(10 * bank + slot),
        None => None,
    }
}

fn is_word(n: &Vec<char>, w: &[char]) -> (r: bool)
    ensures
        r == (n@ == w@),
{
    if n.len() != w.len() {
        return false;
    }
    let mut i: usize = 0;
    while i < n.len()
        invariant
            n@.len() == w@.len(),
            i <= n@.len(),
            forall|j: int| 0 <= j < i ==> n@[j] == w@[j],
        decreases n@.len() - i,
    {
        if n[i] != w[i] {
            return false;
        }
        i = i + 1;
    }
    assert(n@ =~= w@);
    true
}

/// Looks up the register named by the characters `n` in `table`.
pub fn lookup_chars(table: RegisterTable, n: &Vec<char>) -> (r: Option<u8>)
    ensures
        r == table_code(table, n@),
{
    let zero = ['Z', 'E', 'R', 'O'];
    let pc = ['P', 'C'];
    assert(zero@ =~= seq!['Z', 'E', 'R', 'O']);
    assert(pc@ =~= seq!['P', 'C']);
    if is_word(n, &zero) {
        match table {
            RegisterTable::All | RegisterTable::NonPc => Some(ZERO_CODE),
            _ => None,
        }
    } else if is_word(n, &pc) {
        match table {
            RegisterTable::All | RegisterTable::NonZero => Some(PC_CODE),
            _ => None,
        }
    } else {
        general_lookup(n)
    }
}

/// Looks up the register named `name` in `table`.
pub fn lookup(table: RegisterTable, name: &str) -> (r: Option<u8>)
    ensures
        r == table_code(table, name@),
{
    lookup_chars(table, &chars_of(name))
}

} // verus!
