use vstd::prelude::*;

verus! {

/// A register that an operand can name.
#[derive(Clone, Copy, Debug, PartialEq, Eq, Structural)]
pub enum Register {
    /// General purpose register `V0` to `V15`.
    V(u8),
    /// Address register.
    I,
    /// Sound timer register.
    ST,
    /// Delay timer register.
    DT,
}

/// The instruction names of the assembly language.
#[derive(Clone, Copy, Debug, PartialEq, Eq, Structural)]
pub enum Instruction {
    Cls,
    Ret,
    Jmp,
    Call,
    Se,
    Sne,
    Ld,
    Add,
    Or,
    And,
    Xor,
    Sub,
    Shr,
    Subn,
    Shl,
    Jmpo,
    Rnd,
    Drw,
    Skp,
    Sknp,
    Ldk,
    Spr,
    Bcd,
    Stn,
    Ldn,
}

/// A typed operand.
#[derive(Clone, Copy, Debug, PartialEq, Eq, Structural)]
pub enum Parameter {
    Register(Register),
    /// A 12-bit value.
    Address(u16),
    /// An 8-bit value.
    Byte(u8),
    /// A 4-bit value.
    Nibble(u8),
}

impl Parameter {
    /// Every value fits the field of the word that it is placed in.
    pub open spec fn wf(self) -> bool {
        match self {
            Parameter::Register(Register::V(x)) => x < 16,
            Parameter::Address(a) => a < 4096,
            Parameter::Nibble(n) => n < 16,
            _ => true,
        }
    }
}

/// One operand position of an overload: which operands it takes, and where
/// their value goes in the word.
#[derive(Clone, Copy, Debug, PartialEq, Eq, Structural)]
pub enum Slot {
    /// A general register, placed in nibble 2.
    Vx,
    /// A general register, placed in nibble 1.
    Vy,
    /// The address register; adds no bits.
    I,
    /// The delay timer; adds no bits.
    DT,
    /// The sound timer; adds no bits.
    ST,
    /// An address, placed in the low 12 bits.
    Address,
    /// A byte, placed in the low 8 bits.
    Byte,
    /// A nibble, placed in the low 4 bits.
    Nibble,
}

impl Slot {
    /// The slot takes operands of the kind of `p`.
    pub open spec fn accepts(self, p: Parameter) -> bool {
        match p {
            Parameter::Register(Register::V(_)) => self == Slot::Vx || self == Slot::Vy,
            Parameter::Register(Register::I) => self == Slot::I,
            Parameter::Register(Register::DT) => self == Slot::DT,
            Parameter::Register(Register::ST) => self == Slot::ST,
            Parameter::Address(_) => self == Slot::Address,
            Parameter::Byte(_) => self == Slot::Byte,
            Parameter::Nibble(_) => self == Slot::Nibble,
        }
    }

    /// What an accepted operand adds to the word.
    pub open spec fn bits(self, p: Parameter) -> int {
        match p {
            Parameter::Register(Register::V(r)) => if self == Slot::Vx {
                r * 0x100
            } else if self == Slot::Vy {
                r * 0x10
            } else {
                0
            },
            Parameter::Address(a) => a as int,
            Parameter::Byte(b) => b as int,
            Parameter::Nibble(n) => n as int,
            _ => 0,
        }
    }
}

/// One accepted operand shape of an instruction: the word with every operand
/// field zero, and the slot of each operand.
struct Overload {
    base: u16,
    slots: Vec<Slot>,
}

impl View for Overload {
    type V = (u16, Seq<Slot>);

    closed spec fn view(&self) -> (u16, Seq<Slot>) {
        (self.base, self.slots@)
    }
}

/// A set of operand kinds.
#[derive(Clone, Copy, Debug, PartialEq, Eq, Structural)]
pub struct Kinds {
    /// A general register `V0` to `V15`.
    pub v: bool,
    pub i: bool,
    pub dt: bool,
    pub st: bool,
    pub address: bool,
    pub byte: bool,
    pub nibble: bool,
}

/// Why a list of operands cannot be encoded.
#[derive(Clone, Copy, Debug, PartialEq, Eq, Structural)]
pub enum EncodeError {
    /// The instruction takes `expected` operands; `found` were given.
    ParameterCount { expected: usize, found: usize },
    /// No overload accepts the operands up to and including the one at
    /// `index`; `accepted` are the kinds that the overloads which accept the
    /// operands before it take there.
    WrongParameter { index: usize, accepted: Kinds },
}

/// Number of operands that an instruction takes.
pub open spec fn arity(ins: Instruction) -> nat {
    match ins {
        Instruction::Cls | Instruction::Ret => 0,
        Instruction::Jmp | Instruction::Call | Instruction::Jmpo | Instruction::Skp
        | Instruction::Sknp | Instruction::Ldk | Instruction::Spr | Instruction::Bcd
        | Instruction::Stn | Instruction::Ldn => 1,
        Instruction::Drw => 3,
        _ => 2,
    }
}

/// The overloads of each instruction, in the order in which they are tried.
pub open spec fn overloads(ins: Instruction) -> Seq<(u16, Seq<Slot>)> {
    match ins {
        Instruction::Cls => seq![(0x00E0u16, seq![])],
        Instruction::Ret => seq![(0x00EEu16, seq![])],
        Instruction::Jmp => seq![(0x1000u16, seq![Slot::Address])],
        Instruction::Call => seq![(0x2000u16, seq![Slot::Address])],
        Instruction::Se => seq![
            (0x5000u16, seq![Slot::Vx, Slot::Vy]),
            (0x3000u16, seq![Slot::Vx, Slot::Byte]),
        ],
        Instruction::Sne => seq![
            (0x9000u16, seq![Slot::Vx, Slot::Vy]),
            (0x4000u16, seq![Slot::Vx, Slot::Byte]),
        ],
        Instruction::Ld => seq![
            (0x8000u16, seq![Slot::Vx, Slot::Vy]),
            (0xF007u16, seq![Slot::Vx, Slot::DT]),
            (0x6000u16, seq![Slot::Vx, Slot::Byte]),
            (0xA000u16, seq![Slot::I, Slot::Address]),
            (0xF015u16, seq![Slot::DT, Slot::Vx]),
            (0xF018u16, seq![Slot::ST, Slot::Vx]),
        ],
        Instruction::Add => seq![
            (0x8004u16, seq![Slot::Vx, Slot::Vy]),
            (0x7000u16, seq![Slot::Vx, Slot::Byte]),
            (0xF01Eu16, seq![Slot::I, Slot::Vx]),
        ],
        Instruction::Or => seq![(0x8001u16, seq![Slot::Vx, Slot::Vy])],
        Instruction::And => seq![(0x8002u16, seq![Slot::Vx, Slot::Vy])],
        Instruction::Xor => seq![(0x8003u16, seq![Slot::Vx, Slot::Vy])],
        Instruction::Sub => seq![(0x8005u16, seq![Slot::Vx, Slot::Vy])],
        Instruction::Shr => seq![(0x8006u16, seq![Slot::Vx, Slot::Vy])],
        Instruction::Subn => seq![(0x8007u16, seq![Slot::Vx, Slot::Vy])],
        Instruction::Shl => seq![(0x800Eu16, seq![Slot::Vx, Slot::Vy])],
        Instruction::Jmpo => seq![(0xB000u16, seq![Slot::Address])],
        Instruction::Rnd => seq![(0xC000u16, seq![Slot::Vx, Slot::Byte])],
        Instruction::Drw => seq![(0xD000u16, seq![Slot::Vx, Slot::Vy, Slot::Nibble])],
        Instruction::Skp => seq![(0xE09Eu16, seq![Slot::Vx])],
        Instruction::Sknp => seq![(0xE0A1u16, seq![Slot::Vx])],
        Instruction::Ldk => seq![(0xF00Au16, seq![Slot::Vx])],
        Instruction::Spr => seq![(0xF029u16, seq![Slot::Vx])],
        Instruction::Bcd => seq![(0xF033u16, seq![Slot::Vx])],
        Instruction::Stn => seq![(0xF055u16, seq![Slot::Vx])],
        Instruction::Ldn => seq![(0xF065u16, seq![Slot::Vx])],
    }
}

/// The first `n` operands are each accepted by their slot.
pub open spec fn agrees(slots: Seq<Slot>, ps: Seq<Parameter>, n: int) -> bool
    decreases n,
{
    n <= 0 || (agrees(slots, ps, n - 1) && slots[n - 1].accepts(ps[n - 1]))
}

proof fn lemma_agrees_prefix(slots: Seq<Slot>, ps: Seq<Parameter>, n: int, m: int)
    requires
        agrees(slots, ps, n),
        0 <= m <= n,
    ensures
        agrees(slots, ps, m),
    decreases n,
{
    if m < n {
        lemma_agrees_prefix(slots, ps, n - 1, m);
    }
}

/// The overload takes exactly these operands.
pub open spec fn fits(slots: Seq<Slot>, ps: Seq<Parameter>) -> bool {
    slots.len() == ps.len() && agrees(slots, ps, ps.len() as int)
}

/// The first overload from position `k` on that fits the operands.
pub open spec fn first_fit(table: Seq<(u16, Seq<Slot>)>, ps: Seq<Parameter>, k: nat) -> Option<(u16, Seq<Slot>)>
    decreases table.len() - k,
{
    if k >= table.len() {
        None
    } else if fits(table[k as int].1, ps) {
        Some(table[k as int])
    } else {
        first_fit(table, ps, k + 1)
    }
}

/// Some overload accepts the operands up to and including position `i`.
pub open spec fn some_agree(table: Seq<(u16, Seq<Slot>)>, ps: Seq<Parameter>, i: int) -> bool {
    exists|k: int| 0 <= k < table.len() && agrees(#[trigger] table[k].1, ps, i + 1)
}

/// The first position from `i` on at which no overload accepts the operands
/// so far.
pub open spec fn first_misfit(table: Seq<(u16, Seq<Slot>)>, ps: Seq<Parameter>, i: nat) -> nat
    decreases ps.len() - i,
{
    if i >= ps.len() || !some_agree(table, ps, i as int) {
        i
    } else {
        first_misfit(table, ps, i + 1)
    }
}

/// Some overload that accepts the operands before position `i` accepts `p`
/// there; only the overloads from 0 to `k` are looked at.
pub open spec fn takes_up_to(table: Seq<(u16, Seq<Slot>)>, ps: Seq<Parameter>, i: int, p: Parameter, k: int) -> bool {
    exists|m: int| 0 <= m < k && agrees(table[m].1, ps, i) && (#[trigger] table[m].1[i]).accepts(p)
}

/// The kinds of operand that the overloads which accept the operands before
/// position `i` take at `i`.
pub open spec fn accepted_at(table: Seq<(u16, Seq<Slot>)>, ps: Seq<Parameter>, i: int) -> Kinds {
    let n = table.len() as int;
    Kinds {
        v: takes_up_to(table, ps, i, Parameter::Register(Register::V(0)), n),
        i: takes_up_to(table, ps, i, Parameter::Register(Register::I), n),
        dt: takes_up_to(table, ps, i, Parameter::Register(Register::DT), n),
        st: takes_up_to(table, ps, i, Parameter::Register(Register::ST), n),
        address: takes_up_to(table, ps, i, Parameter::Address(0), n),
        byte: takes_up_to(table, ps, i, Parameter::Byte(0), n),
        nibble: takes_up_to(table, ps, i, Parameter::Nibble(0), n),
    }
}

/// What the first `n` operands add to the word.
pub open spec fn operand_bits(slots: Seq<Slot>, ps: Seq<Parameter>, n: nat) -> int
    decreases n,
{
    if n == 0 {
        0
    } else {
        operand_bits(slots, ps, (n - 1) as nat) + slots[n - 1].bits(ps[n - 1])
    }
}

/// The word of an overload for the operands that it fits.
pub open spec fn word(o: (u16, Seq<Slot>), ps: Seq<Parameter>) -> u16 {
    (o.0 + operand_bits(o.1, ps, ps.len())) as u16
}

/// The encoding of an instruction with its operands: the operand count is
/// checked first, then the overloads are tried in order.
pub open spec fn encode(ins: Instruction, ps: Seq<Parameter>) -> Result<u16, EncodeError> {
    if ps.len() != arity(ins) {
        Err(EncodeError::ParameterCount { expected: arity(ins) as usize, found: ps.len() as usize })
    } else {
        match first_fit(overloads(ins), ps, 0) {
            Some(o) => Ok(word(o, ps)),
            None => {
                let i = first_misfit(overloads(ins), ps, 0);
                Err(
                    EncodeError::WrongParameter {
                        index: i as usize,
                        accepted: accepted_at(overloads(ins), ps, i as int),
                    },
                )
            },
        }
    }
}

/// Every instruction has an overload, and each of its overloads takes as
/// many operands as the instruction.
proof fn lemma_overload_shapes(ins: Instruction)
    ensures
        overloads(ins).len() >= 1,
        forall|k: int| 0 <= k < overloads(ins).len() ==> (#[trigger] overloads(ins)[k]).1.len() == arity(ins),
        arity(ins) <= 3,
{
}

fn arity_of(ins: Instruction) -> (r: usize)
    ensures
        r == arity(ins),
{
    match ins {
        Instruction::Cls | Instruction::Ret => 0,
        Instruction::Jmp | Instruction::Call | Instruction::Jmpo | Instruction::Skp
        | Instruction::Sknp | Instruction::Ldk | Instruction::Spr | Instruction::Bcd
        | Instruction::Stn | Instruction::Ldn => 1,
        Instruction::Drw => 3,
        _ => 2,
    }
}

fn one(base: u16, slots: Vec<Slot>) -> (r: Vec<Overload>)
    ensures
        r@.len() == 1,
        r@[0]@ == (base, slots@),
{
    vec![Overload { base, slots }]
}

/// The overload table of `ins`, as values.
fn overloads_of(ins: Instruction) -> (r: Vec<Overload>)
    ensures
        r@.len() == overloads(ins).len(),
        forall|k: int| 0 <= k < r@.len() ==> (#[trigger] r@[k])@ == overloads(ins)[k],
{
    let r = match ins {
        Instruction::Cls => one(0x00E0, vec![]),
        Instruction::Ret => one(0x00EE, vec![]),
        Instruction::Jmp => one(0x1000, vec![Slot::Address]),
        Instruction::Call => one(0x2000, vec![Slot::Address]),
        Instruction::Se => vec![
            Overload { base: 0x5000, slots: vec![Slot::Vx, Slot::Vy] },
            Overload { base: 0x3000, slots: vec![Slot::Vx, Slot::Byte] },
        ],
        Instruction::Sne => vec![
            Overload { base: 0x9000, slots: vec![Slot::Vx, Slot::Vy] },
            Overload { base: 0x4000, slots: vec![Slot::Vx, Slot::Byte] },
        ],
        Instruction::Ld => vec![
            Overload { base: 0x8000, slots: vec![Slot::Vx, Slot::Vy] },
            Overload { base: 0xF007, slots: vec![Slot::Vx, Slot::DT] },
            Overload { base: 0x6000, slots: vec![Slot::Vx, Slot::Byte] },
            Overload { base: 0xA000, slots: vec![Slot::I, Slot::Address] },
            Overload { base: 0xF015, slots: vec![Slot::DT, Slot::Vx] },
            Overload { base: 0xF018, slots: vec![Slot::ST, Slot::Vx] },
        ],
        Instruction::Add => vec![
            Overload { base: 0x8004, slots: vec![Slot::Vx, Slot::Vy] },
            Overload { base: 0x7000, slots: vec![Slot::Vx, Slot::Byte] },
            Overload { base: 0xF01E, slots: vec![Slot::I, Slot::Vx] },
        ],
        Instruction::Or => one(0x8001, vec![Slot::Vx, Slot::Vy]),
        Instruction::And => one(0x8002, vec![Slot::Vx, Slot::Vy]),
        Instruction::Xor => one(0x8003, vec![Slot::Vx, Slot::Vy]),
        Instruction::Sub => one(0x8005, vec![Slot::Vx, Slot::Vy]),
        Instruction::Shr => one(0x8006, vec![Slot::Vx, Slot::Vy]),
        Instruction::Subn => one(0x8007, vec![Slot::Vx, Slot::Vy]),
        Instruction::Shl => one(0x800E, vec![Slot::Vx, Slot::Vy]),
        Instruction::Jmpo => one(0xB000, vec![Slot::Address]),
        Instruction::Rnd => one(0xC000, vec![Slot::Vx, Slot::Byte]),
        Instruction::Drw => one(0xD000, vec![Slot::Vx, Slot::Vy, Slot::Nibble]),
        Instruction::Skp => one(0xE09E, vec![Slot::Vx]),
        Instruction::Sknp => one(0xE0A1, vec![Slot::Vx]),
        Instruction::Ldk => one(0xF00A, vec![Slot::Vx]),
        Instruction::Spr => one(0xF029, vec![Slot::Vx]),
        Instruction::Bcd => one(0xF033, vec![Slot::Vx]),
        Instruction::Stn => one(0xF055, vec![Slot::Vx]),
        Instruction::Ldn => one(0xF065, vec![Slot::Vx]),
    };
    proof {
        assert forall|k: int| 0 <= k < r@.len() implies (#[trigger] r@[k])@ == overloads(ins)[k] by {
            assert(r@[k].slots@ =~= overloads(ins)[k].1);
        }
    }
    r
}

fn slot_accepts(slot: Slot, p: &Parameter) -> (r: bool)
    ensures
        r == slot.accepts(*p),
{
    match p {
        Parameter::Register(Register::V(_)) => slot == Slot::Vx || slot == Slot::Vy,
        Parameter::Register(Register::I) => slot == Slot::I,
        Parameter::Register(Register::DT) => slot == Slot::DT,
        Parameter::Register(Register::ST) => slot == Slot::ST,
        Parameter::Address(_) => slot == Slot::Address,
        Parameter::Byte(_) => slot == Slot::Byte,
        Parameter::Nibble(_) => slot == Slot::Nibble,
    }
}

fn slot_bits(slot: Slot, p: &Parameter) -> (r: u32)
    ensures
        r == slot.bits(*p),
        r <= 0xFFFF,
{
    match p {
        Parameter::Register(Register::V(x)) => if slot == Slot::Vx {
            *x as u32 * 0x100
        } else if slot == Slot::Vy {
            *x as u32 * 0x10
        } else {
            0
        },
        Parameter::Address(a) => *a as u32,
        Parameter::Byte(b) => *b as u32,
        Parameter::Nibble(n) => *n as u32,
        _ => 0,
    }
}

/// Whether the first `n` operands are each accepted by their slot.
fn agrees_up_to(slots: &Vec<Slot>, ps: &[Parameter], n: usize) -> (r: bool)
    requires
        n <= slots.len(),
        n <= ps.len(),
    ensures
        r == agrees(slots@, ps@, n as int),
{
    let mut j: usize = 0;
    while j < n
        invariant
            j <= n <= slots.len(),
            n <= ps.len(),
            agrees(slots@, ps@, j as int),
        decreases n - j,
    {
        if !slot_accepts(slots[j], &ps[j]) {
            proof {
                if agrees(slots@, ps@, n as int) {
                    lemma_agrees_prefix(slots@, ps@, n as int, j + 1);
                }
            }
            return false;
        }
        j += 1;
    }
    true
}

/// Whether some overload accepts the operands up to and including `i`.
fn some_agrees(table: &Vec<Overload>, ps: &[Parameter], i: usize) -> (r: bool)
    requires
        i < ps.len(),
        forall|k: int| 0 <= k < table.len() ==> (#[trigger] table@[k]).slots.len() == ps.len(),
    ensures
        r == some_agree(table@.map_values(|o: Overload| o@), ps@, i as int),
{
    let ghost t = table@.map_values(|o: Overload| o@);
    let mut k: usize = 0;
    while k < table.len()
        invariant
            k <= table.len(),
            i < ps.len(),
            t == table@.map_values(|o: Overload| o@),
            forall|k: int| 0 <= k < table.len() ==> (#[trigger] table@[k]).slots.len() == ps.len(),
            forall|m: int| 0 <= m < k ==> !agrees(#[trigger] t[m].1, ps@, i + 1),
        decreases table.len() - k,
    {
        if agrees_up_to(&table[k].slots, ps, i + 1) {
            assert(agrees(t[k as int].1, ps@, i + 1));
            return true;
        }
        k += 1;
    }
    false
}

/// The kinds of operand that the overloads which accept the operands before
/// position `i` take at `i`.
fn kinds_at(table: &Vec<Overload>, ps: &[Parameter], i: usize) -> (r: Kinds)
    requires
        i < ps.len(),
        forall|k: int| 0 <= k < table.len() ==> (#[trigger] table@[k]).slots.len() == ps.len(),
    ensures
        r == accepted_at(table@.map_values(|o: Overload| o@), ps@, i as int),
{
    let ghost t = table@.map_values(|o: Overload| o@);
    let mut r = Kinds { v: false, i: false, dt: false, st: false, address: false, byte: false, nibble: false };
    let mut k: usize = 0;
    while k < table.len()
        invariant
            k <= table.len(),
            i < ps.len(),
            t == table@.map_values(|o: Overload| o@),
            forall|k: int| 0 <= k < table.len() ==> (#[trigger] table@[k]).slots.len() == ps.len(),
            r.v == takes_up_to(t, ps@, i as int, Parameter::Register(Register::V(0)), k as int),
            r.i == takes_up_to(t, ps@, i as int, Parameter::Register(Register::I), k as int),
            r.dt == takes_up_to(t, ps@, i as int, Parameter::Register(Register::DT), k as int),
            r.st == takes_up_to(t, ps@, i as int, Parameter::Register(Register::ST), k as int),
            r.address == takes_up_to(t, ps@, i as int, Parameter::Address(0), k as int),
            r.byte == takes_up_to(t, ps@, i as int, Parameter::Byte(0), k as int),
            r.nibble == takes_up_to(t, ps@, i as int, Parameter::Nibble(0), k as int),
        decreases table.len() - k,
    {
        let ghost before = r;
        assert(t[k as int] == table@[k as int]@);
        if agrees_up_to(&table[k].slots, ps, i) {
            let s = table[k].slots[i];
            match s {
                Slot::Vx | Slot::Vy => r.v = true,
                Slot::I => r.i = true,
                Slot::DT => r.dt = true,
                Slot::ST => r.st = true,
                Slot::Address => r.address = true,
                Slot::Byte => r.byte = true,
                Slot::Nibble => r.nibble = true,
            }
        }
        proof {
            let km = k as int;
            let ii = i as int;
            let step = |p: Parameter|
                takes_up_to(t, ps@, ii, p, km + 1) == (takes_up_to(t, ps@, ii, p, km) || (agrees(
                    t[km].1,
                    ps@,
                    ii,
                ) && t[km].1[ii].accepts(p)));
            assert forall|p: Parameter| #[trigger] step(p) by {
                if takes_up_to(t, ps@, ii, p, km + 1) && !(agrees(t[km].1, ps@, ii) && t[km].1[ii].accepts(p)) {
                    let m = choose|m: int|
                        0 <= m < km + 1 && agrees(t[m].1, ps@, ii) && (#[trigger] t[m].1[ii]).accepts(p);
                    assert(m < km);
                }
                if agrees(t[km].1, ps@, ii) && t[km].1[ii].accepts(p) {
                    assert(t[km].1[ii] == t[km].1[ii]);
                }
                if takes_up_to(t, ps@, ii, p, km) {
                    let m = choose|m: int|
                        0 <= m < km && agrees(t[m].1, ps@, ii) && (#[trigger] t[m].1[ii]).accepts(p);
                    assert(t[m].1[ii] == t[m].1[ii]);
                }
            }
            assert(step(Parameter::Register(Register::V(0))));
            assert(step(Parameter::Register(Register::I)));
            assert(step(Parameter::Register(Register::DT)));
            assert(step(Parameter::Register(Register::ST)));
            assert(step(Parameter::Address(0)));
            assert(step(Parameter::Byte(0)));
            assert(step(Parameter::Nibble(0)));
        }
        k += 1;
    }
    r
}

/// The word of an overload for operands that it fits.
fn word_of(o: &Overload, ps: &[Parameter]) -> (r: u16)
    requires
        o.slots.len() == ps.len(),
        ps.len() <= 3,
    ensures
        r == word(o@, ps@),
{
    let mut sum: u32 = o.base as u32;
    let mut j: usize = 0;
    while j < ps.len()
        invariant
            j <= ps.len() <= 3,
            o.slots.len() == ps.len(),
            sum == o.base + operand_bits(o.slots@, ps@, j as nat),
            sum <= 0xFFFF + j * 0xFFFF,
        decreases ps.len() - j,
    {
        sum = sum + slot_bits(o.slots[j], &ps[j]);
        j += 1;
    }
    sum as u16
}

/// Encodes an instruction with its operands into one word.
pub fn generate_instruction(instruction: &Instruction, parameters: &[Parameter]) -> (r: Result<u16, EncodeError>)
    ensures
        r == encode(*instruction, parameters@),
{
    let ins = *instruction;
    let expected = arity_of(ins);
    if parameters.len() != expected {
        return Err(EncodeError::ParameterCount { expected, found: parameters.len() });
    }
    let table = overloads_of(ins);
    let ghost t = overloads(ins);
    let ghost ps = parameters@;
    proof {
        lemma_overload_shapes(ins);
        assert(table@.map_values(|o: Overload| o@) =~= t);
    }
    let mut k: usize = 0;
    while k < table.len()
        invariant
            k <= table.len() == t.len(),
            ps == parameters@,
            ins == *instruction,
            ps.len() == arity(ins),
            t == overloads(ins),
            forall|m: int| 0 <= m < table.len() ==> (#[trigger] table@[m])@ == t[m],
            forall|m: int| 0 <= m < t.len() ==> (#[trigger] t[m]).1.len() == arity(ins),
            arity(ins) <= 3,
            first_fit(t, ps, 0) == first_fit(t, ps, k as nat),
            forall|m: int| 0 <= m < k ==> !fits(#[trigger] t[m].1, ps),
        decreases table.len() - k,
    {
        assert(table@[k as int]@ == t[k as int]);
        if agrees_up_to(&table[k].slots, parameters, parameters.len()) {
            assert(first_fit(t, ps, k as nat) == Some(t[k as int]));
            return Ok(word_of(&table[k], parameters));
        }
        k += 1;
    }
    let mut i: usize = 0;
    while i < parameters.len()
        invariant
            i <= parameters.len(),
            ps == parameters@,
            ins == *instruction,
            ps.len() == arity(ins),
            t == overloads(ins),
            table@.map_values(|o: Overload| o@) == t,
            forall|m: int| 0 <= m < table.len() ==> (#[trigger] table@[m]).slots.len() == ps.len(),
            first_fit(t, ps, 0) is None,
            first_misfit(t, ps, 0) == first_misfit(t, ps, i as nat),
            forall|m: int| 0 <= m < i ==> some_agree(t, ps, m),
        decreases parameters.len() - i,
    {
        if !some_agrees(&table, parameters, i) {
            assert(first_misfit(t, ps, i as nat) == i);
            let accepted = kinds_at(&table, parameters, i);
            return Err(EncodeError::WrongParameter { index: i, accepted });
        }
        i += 1;
    }
    proof {
        // Every position agrees with some overload, so the last one does too,
        // and that overload fits: the first loop would have returned. This
        // point is never reached.
        if ps.len() == 0 {
            assert(fits(t[0].1, ps));
        } else {
            assert(some_agree(t, ps, ps.len() - 1));
            let m = choose|m: int| 0 <= m < t.len() && agrees(#[trigger] t[m].1, ps, ps.len() as int);
            assert(fits(t[m].1, ps));
        }
        assert(false);
    }
    Err(EncodeError::ParameterCount { expected, found: parameters.len() })
}

/// `ins` with operands `ps` encodes to the word `w`.
pub open spec fn encodes_to(ins: Instruction, ps: Seq<Parameter>, w: int) -> bool {
    0 <= w < 0x10000 && encode(ins, ps) == Ok::<u16, EncodeError>(w as u16)
}

/// The encoding table: for registers `x` and `y`, address `nnn`, byte `nn`
/// and nibble `n` in range, every accepted operand shape of every
/// instruction gives the word with those values in their fields.
pub proof fn lemma_encoding_table(x: u8, y: u8, nnn: u16, nn: u8, n: u8)
    requires
        x < 16,
        y < 16,
        nnn < 4096,
        n < 16,
    ensures
        ({
            let vx = Parameter::Register(Register::V(x));
            let vy = Parameter::Register(Register::V(y));
            let i = Parameter::Register(Register::I);
            let dt = Parameter::Register(Register::DT);
            let st = Parameter::Register(Register::ST);
            let a = Parameter::Address(nnn);
            let b = Parameter::Byte(nn);
            let k = Parameter::Nibble(n);
            &&& encodes_to(Instruction::Cls, seq![], 0x00E0)
            &&& encodes_to(Instruction::Ret, seq![], 0x00EE)
            &&& encodes_to(Instruction::Jmp, seq![a], 0x1000 + nnn)
            &&& encodes_to(Instruction::Call, seq![a], 0x2000 + nnn)
            &&& encodes_to(Instruction::Se, seq![vx, vy], 0x5000 + x * 0x100 + y * 0x10)
            &&& encodes_to(Instruction::Se, seq![vx, b], 0x3000 + x * 0x100 + nn)
            &&& encodes_to(Instruction::Sne, seq![vx, vy], 0x9000 + x * 0x100 + y * 0x10)
            &&& encodes_to(Instruction::Sne, seq![vx, b], 0x4000 + x * 0x100 + nn)
            &&& encodes_to(Instruction::Ld, seq![vx, vy], 0x8000 + x * 0x100 + y * 0x10)
            &&& encodes_to(Instruction::Ld, seq![vx, dt], 0xF007 + x * 0x100)
            &&& encodes_to(Instruction::Ld, seq![vx, b], 0x6000 + x * 0x100 + nn)
            &&& encodes_to(Instruction::Ld, seq![i, a], 0xA000 + nnn)
            &&& encodes_to(Instruction::Ld, seq![dt, vx], 0xF015 + x * 0x100)
            &&& encodes_to(Instruction::Ld, seq![st, vx], 0xF018 + x * 0x100)
            &&& encodes_to(Instruction::Add, seq![vx, vy], 0x8004 + x * 0x100 + y * 0x10)
            &&& encodes_to(Instruction::Add, seq![vx, b], 0x7000 + x * 0x100 + nn)
            &&& encodes_to(Instruction::Add, seq![i, vx], 0xF01E + x * 0x100)
            &&& encodes_to(Instruction::Or, seq![vx, vy], 0x8001 + x * 0x100 + y * 0x10)
            &&& encodes_to(Instruction::And, seq![vx, vy], 0x8002 + x * 0x100 + y * 0x10)
            &&& encodes_to(Instruction::Xor, seq![vx, vy], 0x8003 + x * 0x100 + y * 0x10)
            &&& encodes_to(Instruction::Sub, seq![vx, vy], 0x8005 + x * 0x100 + y * 0x10)
            &&& encodes_to(Instruction::Shr, seq![vx, vy], 0x8006 + x * 0x100 + y * 0x10)
            &&& encodes_to(Instruction::Subn, seq![vx, vy], 0x8007 + x * 0x100 + y * 0x10)
            &&& encodes_to(Instruction::Shl, seq![vx, vy], 0x800E + x * 0x100 + y * 0x10)
            &&& encodes_to(Instruction::Jmpo, seq![a], 0xB000 + nnn)
            &&& encodes_to(Instruction::Rnd, seq![vx, b], 0xC000 + x * 0x100 + nn)
            &&& encodes_to(Instruction::Drw, seq![vx, vy, k], 0xD000 + x * 0x100 + y * 0x10 + n)
            &&& encodes_to(Instruction::Skp, seq![vx], 0xE09E + x * 0x100)
            &&& encodes_to(Instruction::Sknp, seq![vx], 0xE0A1 + x * 0x100)
            &&& encodes_to(Instruction::Ldk, seq![vx], 0xF00A + x * 0x100)
            &&& encodes_to(Instruction::Spr, seq![vx], 0xF029 + x * 0x100)
            &&& encodes_to(Instruction::Bcd, seq![vx], 0xF033 + x * 0x100)
            &&& encodes_to(Instruction::Stn, seq![vx], 0xF055 + x * 0x100)
            &&& encodes_to(Instruction::Ldn, seq![vx], 0xF065 + x * 0x100)
        }),
{
    reveal_with_fuel(first_fit, 7);
    reveal_with_fuel(agrees, 4);
    reveal_with_fuel(operand_bits, 4);
}

} // verus!
