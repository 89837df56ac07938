//! The guarded machine state: registers, memory, call stack, framebuffer,
//! keyboard matrix and timers.

use vstd::prelude::*;

verus! {

/// Number of addressable memory cells.
pub const RAM_SIZE: usize = 4096;

/// Number of general-purpose registers.
pub const REGISTER_COUNT: usize = 16;

/// Greatest number of return addresses that the call stack holds.
pub const STACK_DEPTH: usize = 16;

/// Number of logical pixels: 64 columns by 32 rows, row-major.
pub const PIXEL_COUNT: usize = 2048;

/// Number of keys of the keyboard matrix.
pub const KEY_COUNT: usize = 16;

/// Greatest address at which a two-byte instruction can be fetched.
pub const MAX_PC: u16 = 4094;

/// Address at which programs are loaded, and where execution starts.
pub const PROGRAM_START: u16 = 0x200;

/// Why a guarded operation refused its arguments.
#[derive(Debug, Clone, Copy, PartialEq, Eq, Structural)]
pub enum Chip8Error {
    PCOutOfBounds,
    IOutOfBounds,
    InvalidMemoryAccess,
    StackOverflow,
    StackUnderflow,
    InvalidRegisterAccess,
    InvalidPixelAccess,
    InvalidPixelValue,
    InvalidKeyAccess,
}

/// The machine as a mathematical value. `slots` holds all sixteen cells of
/// the call stack; `stack` holds the live return addresses, oldest first, so
/// its length is the stack pointer and it is the front of `slots`.
pub struct MachineState {
    pub pc: u16,
    pub v: Seq<u8>,
    pub stack: Seq<u16>,
    pub slots: Seq<u16>,
    pub i: u16,
    pub ram: Seq<u8>,
    pub display: Seq<u8>,
    pub keyboard: Seq<bool>,
    pub dt: u8,
    pub st: u8,
}

impl MachineState {
    /// The architectural invariants.
    pub open spec fn wf(self) -> bool {
        &&& self.pc <= MAX_PC
        &&& self.i < RAM_SIZE
        &&& self.v.len() == REGISTER_COUNT
        &&& self.stack.len() <= STACK_DEPTH
        &&& self.slots.len() == STACK_DEPTH
        &&& self.stack == self.slots.take(self.stack.len() as int)
        &&& self.ram.len() == RAM_SIZE
        &&& self.display.len() == PIXEL_COUNT
        &&& self.keyboard.len() == KEY_COUNT
        &&& forall|k: int| 0 <= k < self.display.len() ==> #[trigger] self.display[k] <= 1
    }

    /// The state of a machine that was just switched on.
    pub open spec fn initial() -> MachineState {
        MachineState {
            pc: PROGRAM_START,
            v: Seq::new(REGISTER_COUNT as nat, |k: int| 0u8),
            stack: Seq::empty(),
            slots: Seq::new(STACK_DEPTH as nat, |k: int| 0u16),
            i: 0,
            ram: Seq::new(RAM_SIZE as nat, |k: int| 0u8),
            display: Seq::new(PIXEL_COUNT as nat, |k: int| 0u8),
            keyboard: Seq::new(KEY_COUNT as nat, |k: int| false),
            dt: 0,
            st: 0,
        }
    }

    /// The state after a return address was pushed: it is written to the
    /// slot at the stack pointer, and to no other. The same state where the
    /// stack is full.
    pub open spec fn push(self, value: u16) -> MachineState {
        if self.stack.len() < STACK_DEPTH {
            MachineState {
                stack: self.stack.push(value),
                slots: self.slots.update(self.stack.len() as int, value),
                ..self
            }
        } else {
            self
        }
    }

    /// The state after the newest return address was dropped: the stack
    /// pointer is one lower and every slot keeps what it held. The same
    /// state where the stack is empty.
    pub open spec fn pop(self) -> MachineState {
        if self.stack.len() > 0 {
            MachineState { stack: self.stack.drop_last(), ..self }
        } else {
            self
        }
    }

    /// The state after the addresses of `values` were pushed, first to last.
    pub open spec fn push_all(self, values: Seq<u16>) -> MachineState
        decreases values.len(),
    {
        if values.len() == 0 {
            self
        } else {
            self.push(values.first()).push_all(values.drop_first())
        }
    }

    /// The state after `n` pops.
    pub open spec fn pop_n(self, n: nat) -> MachineState
        decreases n,
    {
        if n == 0 {
            self
        } else {
            self.pop().pop_n((n - 1) as nat)
        }
    }

    /// The state after a write to the program counter, which takes effect
    /// only for an address at which an instruction can be fetched.
    pub open spec fn with_pc(self, value: u16) -> MachineState {
        if value <= MAX_PC {
            MachineState { pc: value, ..self }
        } else {
            self
        }
    }

    /// The state after a write to the address register, which takes effect
    /// only for an address inside memory.
    pub open spec fn with_i(self, value: u16) -> MachineState {
        if value < RAM_SIZE {
            MachineState { i: value, ..self }
        } else {
            self
        }
    }

    /// The state after a write to a memory cell.
    pub open spec fn with_ram(self, index: int, value: u8) -> MachineState {
        if 0 <= index < RAM_SIZE {
            MachineState { ram: self.ram.update(index, value), ..self }
        } else {
            self
        }
    }

    /// The state after a write to a register.
    pub open spec fn with_v(self, index: int, value: u8) -> MachineState {
        if 0 <= index < REGISTER_COUNT {
            MachineState { v: self.v.update(index, value), ..self }
        } else {
            self
        }
    }

    /// The state after a write to a pixel, which takes effect only for a
    /// pixel of the grid and a value of 0 or 1.
    pub open spec fn with_pixel(self, index: int, value: u8) -> MachineState {
        if 0 <= index < PIXEL_COUNT && value <= 1 {
            MachineState { display: self.display.update(index, value), ..self }
        } else {
            self
        }
    }

    /// The state after a key was pressed or released.
    pub open spec fn with_key(self, index: int, pressed: bool) -> MachineState {
        if 0 <= index < KEY_COUNT {
            MachineState { keyboard: self.keyboard.update(index, pressed), ..self }
        } else {
            self
        }
    }

    /// The state after one timer tick: each timer one lower, but never
    /// below zero.
    pub open spec fn tick(self) -> MachineState {
        MachineState {
            dt: if self.dt > 0 { (self.dt - 1) as u8 } else { 0 },
            st: if self.st > 0 { (self.st - 1) as u8 } else { 0 },
            ..self
        }
    }

    /// The state after `n` timer ticks.
    pub open spec fn tick_n(self, n: nat) -> MachineState
        decreases n,
    {
        if n == 0 {
            self
        } else {
            self.tick().tick_n((n - 1) as nat)
        }
    }

    /// What a read of a memory cell gives.
    pub open spec fn read_ram(self, index: int) -> Result<u8, Chip8Error> {
        if 0 <= index < RAM_SIZE {
            Ok(self.ram[index])
        } else {
            Err(Chip8Error::InvalidMemoryAccess)
        }
    }

    /// What a read of a register gives.
    pub open spec fn read_v(self, index: int) -> Result<u8, Chip8Error> {
        if 0 <= index < REGISTER_COUNT {
            Ok(self.v[index])
        } else {
            Err(Chip8Error::InvalidRegisterAccess)
        }
    }

    /// What a read of a pixel gives.
    pub open spec fn read_pixel(self, index: int) -> Result<u8, Chip8Error> {
        if 0 <= index < PIXEL_COUNT {
            Ok(self.display[index])
        } else {
            Err(Chip8Error::InvalidPixelAccess)
        }
    }

    /// What a read of a key gives.
    pub open spec fn read_key(self, index: int) -> Result<bool, Chip8Error> {
        if 0 <= index < KEY_COUNT {
            Ok(self.keyboard[index])
        } else {
            Err(Chip8Error::InvalidKeyAccess)
        }
    }
}

/// The machine state. Its fields are reached through the guarded operations
/// only, each of which either takes effect or reports why it did not.
pub struct Chip8 {
    pc: u16,
    v: [u8; 16],
    sp: u8,
    stack: [u16; 16],
    i: u16,
    ram: [u8; 4096],
    display: [u8; 2048],
    keyboard: [bool; 16],
    dt: u8,
    st: u8,
}

impl View for Chip8 {
    type V = MachineState;

    closed spec fn view(&self) -> MachineState {
        MachineState {
            pc: self.pc,
            v: self.v@,
            stack: self.stack@.take(self.sp as int),
            slots: self.stack@,
            i: self.i,
            ram: self.ram@,
            display: self.display@,
            keyboard: self.keyboard@,
            dt: self.dt,
            st: self.st,
        }
    }
}

impl Chip8 {
    #[verifier::type_invariant]
    spec fn inv(&self) -> bool {
        &&& self.pc <= MAX_PC
        &&& self.i < RAM_SIZE
        &&& self.sp <= STACK_DEPTH
        &&& forall|k: int| 0 <= k < PIXEL_COUNT ==> #[trigger] self.display@[k] <= 1
    }

    /// A machine with every field zero but the program counter, which stands
    /// at the program-load address.
    pub fn new() -> (chip: Self)
        ensures
            chip@ == MachineState::initial(),
            chip@.wf(),
    {
        let chip = Chip8 {
            pc: PROGRAM_START,
            v: [0; 16],
            sp: 0,
            stack: [0; 16],
            i: 0,
            ram: [0; 4096],
            display: [0; 2048],
            keyboard: [false; 16],
            dt: 0,
            st: 0,
        };
        proof {
            let m = MachineState::initial();
            assert(chip@.v =~= m.v);
            assert(chip@.stack =~= m.stack);
            assert(chip@.slots =~= m.slots);
            assert(chip@.ram =~= m.ram);
            assert(chip@.display =~= m.display);
            assert(chip@.keyboard =~= m.keyboard);
        }
        chip
    }

    /// Pushes a return address. Fails, and changes nothing, where the stack
    /// already holds sixteen.
    pub fn push_stack(&mut self, value: u16) -> (res: Result<bool, Chip8Error>)
        ensures
            final(self)@ == old(self)@.push(value),
            old(self)@.wf(),
            final(self)@.wf(),
            res == if old(self)@.stack.len() < STACK_DEPTH {
                Ok::<bool, Chip8Error>(true)
            } else {
                Err(Chip8Error::StackOverflow)
            },
            res is Err ==> *final(self) == *old(self),
    {
        proof {
            use_type_invariant(&*self);
        }
        if self.sp >= 16 {
            Err(Chip8Error::StackOverflow)
        } else {
            self.stack[self.sp as usize] = value;
            self.sp += 1;
            proof {
                assert(self@.stack =~= old(self)@.stack.push(value));
                assert(self@.slots =~= old(self)@.slots.update(
                    old(self)@.stack.len() as int,
                    value,
                ));
            }
            Ok(true)
        }
    }

    /// Drops the newest return address. Fails, and changes nothing, where
    /// the stack is empty. The address itself is read with `peek_stack`
    /// before the call.
    pub fn pop_stack(&mut self) -> (res: Result<bool, Chip8Error>)
        ensures
            final(self)@ == old(self)@.pop(),
            old(self)@.wf(),
            final(self)@.wf(),
            res == if old(self)@.stack.len() > 0 {
                Ok::<bool, Chip8Error>(true)
            } else {
                Err(Chip8Error::StackUnderflow)
            },
            res is Err ==> *final(self) == *old(self),
    {
        proof {
            use_type_invariant(&*self);
        }
        if self.sp == 0 {
            Err(Chip8Error::StackUnderflow)
        } else {
            self.sp -= 1;
            proof {
                assert(self@.stack =~= old(self)@.stack.drop_last());
            }
            Ok(true)
        }
    }

    /// Sets the program counter. Fails, and changes nothing, where no
    /// two-byte instruction can be fetched at `value`.
    pub fn set_pc(&mut self, value: u16) -> (res: Result<bool, Chip8Error>)
        ensures
            final(self)@ == old(self)@.with_pc(value),
            old(self)@.wf(),
            final(self)@.wf(),
            res == if value <= MAX_PC {
                Ok::<bool, Chip8Error>(true)
            } else {
                Err(Chip8Error::PCOutOfBounds)
            },
            res is Err ==> *final(self) == *old(self),
    {
        proof {
            use_type_invariant(&*self);
        }
        if value > MAX_PC {
            Err(Chip8Error::PCOutOfBounds)
        } else {
            self.pc = value;
            Ok(true)
        }
    }

    /// Sets the address register. Fails, and changes nothing, where `value`
    /// lies outside memory.
    pub fn set_i(&mut self, value: u16) -> (res: Result<bool, Chip8Error>)
        ensures
            final(self)@ == old(self)@.with_i(value),
            old(self)@.wf(),
            final(self)@.wf(),
            res == if value < RAM_SIZE {
                Ok::<bool, Chip8Error>(true)
            } else {
                Err(Chip8Error::IOutOfBounds)
            },
            res is Err ==> *final(self) == *old(self),
    {
        proof {
            use_type_invariant(&*self);
        }
        if value >= 4096 {
            Err(Chip8Error::IOutOfBounds)
        } else {
            self.i = value;
            Ok(true)
        }
    }

    /// Reads a memory cell.
    pub fn get_ram(&self, index: u16) -> (res: Result<u8, Chip8Error>)
        ensures
            res == self@.read_ram(index as int),
            self@.wf(),
    {
        proof {
            use_type_invariant(self);
        }
        if index >= 4096 {
            Err(Chip8Error::InvalidMemoryAccess)
        } else {
            Ok(self.ram[index as usize])
        }
    }

    /// Writes a memory cell. Fails, and changes nothing, where `index` lies
    /// outside memory.
    pub fn set_ram(&mut self, index: u16, value: u8) -> (res: Result<bool, Chip8Error>)
        ensures
            final(self)@ == old(self)@.with_ram(index as int, value),
            old(self)@.wf(),
            final(self)@.wf(),
            res == if index < RAM_SIZE {
                Ok::<bool, Chip8Error>(true)
            } else {
                Err(Chip8Error::InvalidMemoryAccess)
            },
            res is Err ==> *final(self) == *old(self),
    {
        proof {
            use_type_invariant(&*self);
        }
        if index >= 4096 {
            Err(Chip8Error::InvalidMemoryAccess)
        } else {
            self.ram[index as usize] = value;
            Ok(true)
        }
    }

    /// Reads a register.
    pub fn get_v(&self, index: usize) -> (res: Result<u8, Chip8Error>)
        ensures
            res == self@.read_v(index as int),
            self@.wf(),
    {
        proof {
            use_type_invariant(self);
        }
        if index >= 16 {
            Err(Chip8Error::InvalidRegisterAccess)
        } else {
            Ok(self.v[index])
        }
    }

    /// Writes a register. Fails, and changes nothing, where there is no
    /// register `index`.
    pub fn set_v(&mut self, index: usize, value: u8) -> (res: Result<bool, Chip8Error>)
        ensures
            final(self)@ == old(self)@.with_v(index as int, value),
            old(self)@.wf(),
            final(self)@.wf(),
            res == if index < REGISTER_COUNT {
                Ok::<bool, Chip8Error>(true)
            } else {
                Err(Chip8Error::InvalidRegisterAccess)
            },
            res is Err ==> *final(self) == *old(self),
    {
        proof {
            use_type_invariant(&*self);
        }
        if index >= 16 {
            Err(Chip8Error::InvalidRegisterAccess)
        } else {
            self.v[index] = value;
            Ok(true)
        }
    }

    /// Reads a pixel, which is 0 or 1.
    pub fn get_pixel(&self, index: usize) -> (res: Result<u8, Chip8Error>)
        ensures
            res == self@.read_pixel(index as int),
            res matches Ok(p) ==> p <= 1,
            self@.wf(),
    {
        proof {
            use_type_invariant(self);
        }
        if index >= 2048 {
            Err(Chip8Error::InvalidPixelAccess)
        } else {
            Ok(self.display[index])
        }
    }

    /// Writes a pixel. Fails, and changes nothing, where `index` lies off
    /// the grid or, on the grid, where `value` is neither 0 nor 1.
    pub fn set_pixel(&mut self, index: usize, value: u8) -> (res: Result<bool, Chip8Error>)
        ensures
            final(self)@ == old(self)@.with_pixel(index as int, value),
            old(self)@.wf(),
            final(self)@.wf(),
            res == if index >= PIXEL_COUNT {
                Err::<bool, Chip8Error>(Chip8Error::InvalidPixelAccess)
            } else if value > 1 {
                Err(Chip8Error::InvalidPixelValue)
            } else {
                Ok(true)
            },
            res is Err ==> *final(self) == *old(self),
    {
        proof {
            use_type_invariant(&*self);
        }
        if index >= 2048 {
            Err(Chip8Error::InvalidPixelAccess)
        } else if value == 1 || value == 0 {
            self.display[index] = value;
            Ok(true)
        } else {
            Err(Chip8Error::InvalidPixelValue)
        }
    }

    /// Reads whether a key is held down.
    pub fn get_key_state(&self, index: usize) -> (res: Result<bool, Chip8Error>)
        ensures
            res == self@.read_key(index as int),
            self@.wf(),
    {
        proof {
            use_type_invariant(self);
        }
        if index >= 16 {
            Err(Chip8Error::InvalidKeyAccess)
        } else {
            Ok(self.keyboard[index])
        }
    }

    /// Records a key as pressed or released. Fails, and changes nothing,
    /// where there is no key `index`.
    pub fn set_key_state(&mut self, index: usize, value: bool) -> (res: Result<bool, Chip8Error>)
        ensures
            final(self)@ == old(self)@.with_key(index as int, value),
            old(self)@.wf(),
            final(self)@.wf(),
            res == if index < KEY_COUNT {
                Ok::<bool, Chip8Error>(true)
            } else {
                Err(Chip8Error::InvalidKeyAccess)
            },
            res is Err ==> *final(self) == *old(self),
    {
        proof {
            use_type_invariant(&*self);
        }
        if index >= 16 {
            Err(Chip8Error::InvalidKeyAccess)
        } else {
            self.keyboard[index] = value;
            Ok(true)
        }
    }

    /// Sets the delay timer.
    pub fn set_dt(&mut self, value: u8)
        ensures
            final(self)@ == (MachineState { dt: value, ..old(self)@ }),
            old(self)@.wf(),
            final(self)@.wf(),
    {
        proof {
            use_type_invariant(&*self);
        }
        self.dt = value;
    }

    /// Sets the sound timer.
    pub fn set_st(&mut self, value: u8)
        ensures
            final(self)@ == (MachineState { st: value, ..old(self)@ }),
            old(self)@.wf(),
            final(self)@.wf(),
    {
        proof {
            use_type_invariant(&*self);
        }
        self.st = value;
    }

    /// One timer tick: each timer goes down by one and stops at zero.
    pub fn decrease_timers(&mut self)
        ensures
            final(self)@ == old(self)@.tick(),
            old(self)@.wf(),
            final(self)@.wf(),
    {
        proof {
            use_type_invariant(&*self);
        }
        self.st = if self.st > 0 { self.st - 1 } else { self.st };
        self.dt = if self.dt > 0 { self.dt - 1 } else { self.dt };
    }

    /// The program counter.
    pub fn get_pc(&self) -> (pc: u16)
        ensures
            pc == self@.pc,
            pc <= MAX_PC,
            self@.wf(),
    {
        proof {
            use_type_invariant(self);
        }
        self.pc
    }

    /// The address register.
    pub fn get_i(&self) -> (i: u16)
        ensures
            i == self@.i,
            i < RAM_SIZE,
            self@.wf(),
    {
        proof {
            use_type_invariant(self);
        }
        self.i
    }

    /// The stack pointer: how many return addresses the stack holds.
    pub fn get_sp(&self) -> (sp: u8)
        ensures
            sp == self@.stack.len(),
            sp <= STACK_DEPTH,
            self@.wf(),
    {
        proof {
            use_type_invariant(self);
        }
        self.sp
    }

    /// The newest return address, where the stack holds one.
    pub fn peek_stack(&self) -> (top: Option<u16>)
        ensures
            top == if self@.stack.len() > 0 {
                Some(self@.stack.last())
            } else {
                None
            },
            self@.wf(),
    {
        proof {
            use_type_invariant(self);
        }
        if self.sp == 0 {
            None
        } else {
            Some(self.stack[(self.sp - 1) as usize])
        }
    }

    /// What a slot of the call stack holds, live or not, where there is a
    /// slot `index`.
    pub fn stack_slot(&self, index: usize) -> (slot: Option<u16>)
        ensures
            slot == if index < STACK_DEPTH {
                Some(self@.slots[index as int])
            } else {
                None
            },
            self@.wf(),
    {
        proof {
            use_type_invariant(self);
        }
        if index >= 16 {
            None
        } else {
            Some(self.stack[index])
        }
    }

    /// The delay timer.
    pub fn get_dt(&self) -> (dt: u8)
        ensures
            dt == self@.dt,
            self@.wf(),
    {
        proof {
            use_type_invariant(self);
        }
        self.dt
    }

    /// The sound timer. The machine should sound while it is not zero.
    pub fn get_st(&self) -> (st: u8)
        ensures
            st == self@.st,
            self@.wf(),
    {
        proof {
            use_type_invariant(self);
        }
        self.st
    }
}

impl Default for Chip8 {
    fn default() -> (chip: Self)
        ensures
            chip@ == MachineState::initial(),
            chip@.wf(),
    {
        Chip8::new()
    }
}

/// Every operation leaves a valid machine valid.
pub proof fn lemma_operations_preserve_wf(
    s: MachineState,
    index: int,
    value: u8,
    address: u16,
    pressed: bool,
)
    requires
        s.wf(),
    ensures
        MachineState::initial().wf(),
        s.push(address).wf(),
        s.pop().wf(),
        s.with_pc(address).wf(),
        s.with_i(address).wf(),
        s.with_ram(index, value).wf(),
        s.with_v(index, value).wf(),
        s.with_pixel(index, value).wf(),
        s.with_key(index, pressed).wf(),
        s.tick().wf(),
{
    let depth = s.stack.len() as int;
    assert(MachineState::initial().stack =~= MachineState::initial().slots.take(0));
    if depth < STACK_DEPTH {
        assert(s.stack.push(address) =~= s.slots.update(depth, address).take(depth + 1));
    }
    if depth > 0 {
        assert(s.stack.drop_last() =~= s.slots.take(depth - 1));
    }
}

/// A read that follows a write at the same valid index gives what was
/// written: for registers, memory cells, pixels of value 0 or 1, and keys.
pub proof fn lemma_read_after_write(s: MachineState, index: int, value: u8, pressed: bool)
    requires
        s.wf(),
    ensures
        0 <= index < REGISTER_COUNT ==> s.with_v(index, value).read_v(index)
            == Ok::<u8, Chip8Error>(value),
        0 <= index < RAM_SIZE ==> s.with_ram(index, value).read_ram(index)
            == Ok::<u8, Chip8Error>(value),
        0 <= index < PIXEL_COUNT && value <= 1 ==> s.with_pixel(index, value).read_pixel(index)
            == Ok::<u8, Chip8Error>(value),
        0 <= index < KEY_COUNT ==> s.with_key(index, pressed).read_key(index)
            == Ok::<bool, Chip8Error>(pressed),
{
}

/// A write leaves every other index as it was.
pub proof fn lemma_write_keeps_others(
    s: MachineState,
    index: int,
    other: int,
    value: u8,
    pressed: bool,
)
    requires
        s.wf(),
        other != index,
    ensures
        s.with_v(index, value).read_v(other) == s.read_v(other),
        s.with_ram(index, value).read_ram(other) == s.read_ram(other),
        s.with_pixel(index, value).read_pixel(other) == s.read_pixel(other),
        s.with_key(index, pressed).read_key(other) == s.read_key(other),
{
}

/// A write at an index outside its domain changes nothing.
pub proof fn lemma_write_out_of_domain(s: MachineState, index: int, value: u8, pressed: bool)
    ensures
        !(0 <= index < REGISTER_COUNT) ==> s.with_v(index, value) == s,
        !(0 <= index < RAM_SIZE) ==> s.with_ram(index, value) == s,
        !(0 <= index < PIXEL_COUNT) ==> s.with_pixel(index, value) == s,
        !(0 <= index < KEY_COUNT) ==> s.with_key(index, pressed) == s,
{
}

/// The program counter and the address register keep their value where the
/// new one is out of range, and take the new one otherwise.
pub proof fn lemma_pc_and_i_guarded(s: MachineState, value: u16)
    ensures
        value > MAX_PC ==> s.with_pc(value) == s,
        value <= MAX_PC ==> s.with_pc(value).pc == value,
        value >= RAM_SIZE ==> s.with_i(value) == s,
        value < RAM_SIZE ==> s.with_i(value).i == value,
{
}

/// A pixel keeps its value where the new one is neither 0 nor 1.
pub proof fn lemma_pixel_value_guarded(s: MachineState, index: int, value: u8)
    requires
        value > 1,
    ensures
        s.with_pixel(index, value) == s,
{
}

/// A pop after a push brings the stack and every other field back; of the
/// slots only the one that the push wrote differs, and it keeps the pushed
/// address.
pub proof fn lemma_pop_after_push(s: MachineState, value: u16)
    requires
        s.stack.len() < STACK_DEPTH,
    ensures
        s.push(value).stack.last() == value,
        s.push(value).pop() == (MachineState {
            slots: s.slots.update(s.stack.len() as int, value),
            ..s
        }),
{
    assert(s.stack.push(value).drop_last() =~= s.stack);
}

/// The slots after the addresses of `values` were pushed on a stack of
/// `depth` entries: the slots from `depth` on hold the addresses in order,
/// all others what they held.
pub open spec fn slots_after(slots: Seq<u16>, depth: int, values: Seq<u16>) -> Seq<u16> {
    Seq::new(
        slots.len(),
        |k: int|
            if depth <= k < depth + values.len() {
                values[k - depth]
            } else {
                slots[k]
            },
    )
}

/// Pushes that fit on the stack append their addresses in order, write them
/// to the slots from the stack pointer on, and touch nothing else.
pub proof fn lemma_push_all(s: MachineState, values: Seq<u16>)
    requires
        s.wf(),
        s.stack.len() + values.len() <= STACK_DEPTH,
    ensures
        s.push_all(values) == (MachineState {
            stack: s.stack + values,
            slots: slots_after(s.slots, s.stack.len() as int, values),
            ..s
        }),
    decreases values.len(),
{
    let depth = s.stack.len() as int;
    if values.len() == 0 {
        assert(s.stack + values =~= s.stack);
        assert(slots_after(s.slots, depth, values) =~= s.slots);
    } else {
        let next = s.push(values.first());
        lemma_operations_preserve_wf(s, 0, 0, values.first(), false);
        lemma_push_all(next, values.drop_first());
        assert(s.stack.push(values.first()) + values.drop_first() =~= s.stack + values);
        assert(slots_after(next.slots, depth + 1, values.drop_first()) =~= slots_after(
            s.slots,
            depth,
            values,
        ));
    }
}

/// Pops that the stack can serve drop its newest addresses and nothing
/// else: every slot keeps what it held.
pub proof fn lemma_pop_n(s: MachineState, n: nat)
    requires
        n <= s.stack.len(),
    ensures
        s.pop_n(n) == (MachineState { stack: s.stack.take(s.stack.len() - n), ..s }),
    decreases n,
{
    if n == 0 {
        assert(s.stack.take(s.stack.len() - n) =~= s.stack);
    } else {
        lemma_pop_n(s.pop(), (n - 1) as nat);
        assert(s.stack.drop_last().take(s.stack.len() - n) =~= s.stack.take(s.stack.len() - n));
    }
}

/// As many pops as pushes bring the stack and every other field back, so
/// long as the pushes fit, while the slots keep what was pushed; and on a
/// stack that the pushes have filled, one more push changes nothing.
pub proof fn lemma_stack_round_trip(s: MachineState, values: Seq<u16>, extra: u16)
    requires
        s.wf(),
        s.stack.len() + values.len() <= STACK_DEPTH,
    ensures
        s.push_all(values).pop_n(values.len()) == (MachineState {
            slots: slots_after(s.slots, s.stack.len() as int, values),
            ..s
        }),
        s.stack.len() + values.len() == STACK_DEPTH ==> s.push_all(values).push(extra)
            == s.push_all(values),
        s.stack.len() + values.len() < STACK_DEPTH ==> s.push_all(values).push(extra).stack
            == (s.stack + values).push(extra),
{
    lemma_push_all(s, values);
    lemma_pop_n(s.push_all(values), values.len());
    assert((s.stack + values).take(s.stack.len() as int) =~= s.stack);
}

/// After `n` ticks each timer is `n` lower, or zero where it held less than
/// `n`: timers saturate and never wrap. Nothing else changes.
pub proof fn lemma_tick_n(s: MachineState, n: nat)
    ensures
        s.tick_n(n) == (MachineState {
            dt: if s.dt >= n { (s.dt - n) as u8 } else { 0 },
            st: if s.st >= n { (s.st - n) as u8 } else { 0 },
            ..s
        }),
    decreases n,
{
    if n > 0 {
        lemma_tick_n(s.tick(), (n - 1) as nat);
    }
}

} // verus!
