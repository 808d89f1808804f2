//! A thread's saved user registers and the names the kernel uses for them.
use vstd::prelude::*;

verus! {

/// Number of saved registers in a thread's context.
pub const CONTEXT_REG_NUM: usize = 37;

/// Number of message registers passed in machine registers.
pub const MSG_REGISTER_NUM: usize = 4;

pub const FRAME_REG_NUM: usize = 17;

pub const GP_REG_NUM: usize = 19;

/// Length of a fault message.
pub const MAX_MSG_SIZE: usize = 12;

/// Number of fault message layouts.
pub const NUM_FAULT_MESSAGES: usize = 2;

pub open spec fn msg_registers() -> Seq<usize> {
    seq![2, 3, 4, 5]
}

pub open spec fn frame_registers() -> Seq<usize> {
    seq![34, 31, 33, 0, 1, 2, 3, 4, 5, 6, 7, 8, 16, 17, 18, 29, 30]
}

pub open spec fn gp_registers() -> Seq<usize> {
    seq![9, 10, 11, 12, 13, 14, 15, 19, 20, 21, 22, 23, 24, 25, 26, 27, 28, 35, 36]
}

pub open spec fn fault_messages() -> Seq<Seq<usize>> {
    seq![seq![0, 1, 2, 3, 4, 5, 6, 7, 34, 31, 32, 33], seq![34, 31, 33, 0, 0, 0, 0, 0, 0, 0, 0, 0]]
}

/// The registers of a thread context, by role.
#[derive(PartialEq, Eq, Structural, Copy, Clone, Debug)]
pub enum ArchReg {
    TlsBase,
    Cap,
    Badge,
    MsgInfo,
    /// The address of the faulting instruction.
    FaultIP,
    /// The next instruction pointer.
    NextIP,
    /// Message register `i`.
    Msg(usize),
    /// Frame register `i`.
    Frame(usize),
    /// General purpose register `i`.
    GP(usize),
    /// Entry `index` of fault message layout `id`.
    FaultMessage(usize, usize),
}

impl ArchReg {
    /// Whether the register's offsets name an existing register.
    pub open spec fn valid(&self) -> bool {
        match *self {
            ArchReg::Msg(i) => i < MSG_REGISTER_NUM,
            ArchReg::Frame(i) => i < FRAME_REG_NUM,
            ArchReg::GP(i) => i < GP_REG_NUM,
            ArchReg::FaultMessage(id, index) => id < NUM_FAULT_MESSAGES && index < MAX_MSG_SIZE,
            _ => true,
        }
    }

    /// The slot of the register in the saved context.
    pub open spec fn index(&self) -> int {
        match *self {
            ArchReg::TlsBase => 35,
            ArchReg::Cap => 0,
            ArchReg::Badge => 0,
            ArchReg::MsgInfo => 1,
            ArchReg::FaultIP => 34,
            ArchReg::NextIP => 32,
            ArchReg::Msg(i) => msg_registers()[i as int] as int,
            ArchReg::Frame(i) => frame_registers()[i as int] as int,
            ArchReg::GP(i) => gp_registers()[i as int] as int,
            ArchReg::FaultMessage(id, index) => fault_messages()[id as int][index as int] as int,
        }
    }

    /// Converts the register to its slot in the saved context.
    pub fn to_index(&self) -> (r: usize)
        requires
            self.valid(),
        ensures
            r as int == self.index(),
            r < CONTEXT_REG_NUM,
    {
        match *self {
            ArchReg::TlsBase => 35,
            ArchReg::Cap => 0,
            ArchReg::Badge => 0,
            ArchReg::MsgInfo => 1,
            ArchReg::FaultIP => 34,
            ArchReg::NextIP => 32,
            ArchReg::Msg(i) => i + 2,
            ArchReg::Frame(i) => frame_register(i),
            ArchReg::GP(i) => if i < 7 {
                i + 9
            } else if i < 17 {
                i + 12
            } else {
                i + 18
            },
            ArchReg::FaultMessage(id, index) => fault_message_register(id, index),
        }
    }
}

fn frame_register(i: usize) -> (r: usize)
    requires
        i < FRAME_REG_NUM,
    ensures
        r == frame_registers()[i as int],
{
    if i == 0 {
        34
    } else if i == 1 {
        31
    } else if i == 2 {
        33
    } else if i < 12 {
        i - 3
    } else if i < 15 {
        i + 4
    } else {
        i + 14
    }
}

fn fault_message_register(id: usize, index: usize) -> (r: usize)
    requires
        id < NUM_FAULT_MESSAGES,
        index < MAX_MSG_SIZE,
    ensures
        r == fault_messages()[id as int][index as int],
{
    if id == 0 {
        if index < 8 {
            index
        } else if index == 8 {
            34
        } else if index == 9 {
            31
        } else {
            index + 22
        }
    } else {
        if index == 0 {
            34
        } else if index == 1 {
            31
        } else if index == 2 {
            33
        } else {
            0
        }
    }
}

/// The floating-point state saved with a thread.
#[derive(PartialEq, Eq, Structural, Copy, Clone, Debug)]
pub struct FPUState {
    pub fcsr: u32,
}

/// The saved user context of a thread.
pub struct ArchTCB {
    pub registers: Vec<usize>,
    pub fpu: FPUState,
}

impl ArchTCB {
    /// The register file.
    pub open spec fn regs(&self) -> Seq<usize> {
        self.registers@
    }

    pub open spec fn wf(&self) -> bool {
        self.registers@.len() == CONTEXT_REG_NUM
    }

    /// A context with every register zero.
    pub fn new() -> (r: Self)
        ensures
            r.wf(),
            forall|i: int| 0 <= i < CONTEXT_REG_NUM ==> #[trigger] r.regs()[i] == 0,
    {
        let mut registers: Vec<usize> = Vec::new();
        let mut i: usize = 0;
        while i < CONTEXT_REG_NUM
            invariant
                i <= CONTEXT_REG_NUM,
                registers@.len() == i,
                forall|k: int| 0 <= k < i ==> #[trigger] registers@[k] == 0,
            decreases CONTEXT_REG_NUM - i,
        {
            registers.push(0);
            i = i + 1;
        }
        ArchTCB { registers, fpu: FPUState { fcsr: 0 } }
    }

    pub fn set_register(&mut self, reg: ArchReg, w: usize)
        requires
            old(self).wf(),
            reg.valid(),
        ensures
            final(self).wf(),
            final(self).regs() == old(self).regs().update(reg.index(), w),
            final(self).fpu == old(self).fpu,
    {
        let i = reg.to_index();
        self.registers.set(i, w);
    }

    pub fn get_register(&self, reg: ArchReg) -> (r: usize)
        requires
            self.wf(),
            reg.valid(),
        ensures
            r == self.regs()[reg.index()],
    {
        self.registers[reg.to_index()]
    }

    /// Copies the registers in `range` from `source`.
    pub fn copy_range(&mut self, source: &Self, range: std::ops::Range<usize>)
        requires
            old(self).wf(),
            source.wf(),
            range.start <= range.end <= CONTEXT_REG_NUM,
        ensures
            final(self).wf(),
            final(self).fpu == old(self).fpu,
            forall|i: int|
                0 <= i < CONTEXT_REG_NUM ==> #[trigger] final(self).regs()[i] == if range.start <= i
                    < range.end {
                    source.regs()[i]
                } else {
                    old(self).regs()[i]
                },
    {
        let mut i: usize = range.start;
        while i < range.end
            invariant
                self.wf(),
                source.wf(),
                self.fpu == old(self).fpu,
                range.start <= i <= range.end <= CONTEXT_REG_NUM,
                forall|k: int|
                    0 <= k < CONTEXT_REG_NUM ==> #[trigger] self.regs()[k] == if range.start <= k
                        < i {
                        source.regs()[k]
                    } else {
                        old(self).regs()[k]
                    },
            decreases range.end - i,
        {
            let v = source.registers[i];
            let ghost before = self.regs();
            self.registers.set(i, v);
            proof {
                assert forall|k: int| 0 <= k < CONTEXT_REG_NUM implies #[trigger] self.regs()[k]
                    == if range.start <= k < i + 1 {
                    source.regs()[k]
                } else {
                    old(self).regs()[k]
                } by {
                    if k != i as int {
                        assert(self.regs()[k] == before[k]);
                    }
                }
            }
            i = i + 1;
        }
    }
}

} // verus!
