use vstd::prelude::*;

verus! {

use crate::input::InputQueue;
use crate::word::{wrap_add, wrap_at, wrapping_add, lemma_wrap_at_step};

/// Number of addressable cells: the full 16-bit address space.
pub const MEMORY_SIZE: usize = 0x10000;

/// Keyboard-status device register: reading this address polls the keyboard.
pub const KEYBOARD_STATUS_ADDRESS: u16 = 0xFE00;

/// Keyboard-data device register: holds the last byte a poll delivered.
pub const KEYBOARD_DATA_ADDRESS: u16 = 0xFE02;

/// Bit 15 of keyboard status: a byte is ready at keyboard data.
pub const KEYBOARD_READY: u16 = 0x8000;

/// The machine's flat address space: 65536 cells of 16 bits, with the two
/// keyboard device registers mapped into it.
pub struct Memory {
    container: Vec<u16>,
}

impl View for Memory {
    type V = Seq<u16>;

    closed spec fn view(&self) -> Seq<u16> {
        self.container@
    }
}

/// Memory as it is at machine start: every cell zero.
pub open spec fn zero_memory() -> Seq<u16> {
    Seq::new(MEMORY_SIZE as nat, |i: int| 0u16)
}

/// What a read at `address` returns: reading keyboard status reports
/// whether a byte is pending; any other address is a plain load.
pub open spec fn read_result(mem: Seq<u16>, input: Seq<u8>, address: u16) -> u16 {
    if address == KEYBOARD_STATUS_ADDRESS {
        if input.len() > 0 {
            KEYBOARD_READY
        } else {
            0
        }
    } else {
        mem[address as int]
    }
}

/// Memory after a read at `address`: a keyboard-status read stores the poll
/// outcome into the two device registers; any other read leaves memory as
/// it was.
pub open spec fn mem_after_read(mem: Seq<u16>, input: Seq<u8>, address: u16) -> Seq<u16> {
    if address == KEYBOARD_STATUS_ADDRESS {
        if input.len() > 0 {
            mem.update(KEYBOARD_STATUS_ADDRESS as int, KEYBOARD_READY).update(
                KEYBOARD_DATA_ADDRESS as int,
                input[0] as u16,
            )
        } else {
            mem.update(KEYBOARD_STATUS_ADDRESS as int, 0u16)
        }
    } else {
        mem
    }
}

/// Pending input after a read at `address`: a keyboard-status read consumes
/// the byte it delivered; any other read consumes nothing.
pub open spec fn input_after_read(input: Seq<u8>, address: u16) -> Seq<u8> {
    if address == KEYBOARD_STATUS_ADDRESS && input.len() > 0 {
        input.drop_first()
    } else {
        input
    }
}

impl Memory {
    /// Memory is well formed when it covers the whole 16-bit address space.
    pub open spec fn wf(self) -> bool {
        self@.len() == MEMORY_SIZE
    }

    /// Fresh memory: every cell zero.
    pub fn new() -> (r: Memory)
        ensures
            r.wf(),
            r@ == zero_memory(),
    {
        let mut container: Vec<u16> = Vec::new();
        while container.len() < MEMORY_SIZE
            invariant
                container@.len() <= MEMORY_SIZE,
                forall|i: int| 0 <= i < container@.len() ==> container@[i] == 0u16,
            decreases MEMORY_SIZE - container@.len(),
        {
            container.push(0);
        }
        proof {
            assert(container@ =~= zero_memory());
        }
        Memory { container }
    }

    /// Load the word at `address`. This read is not referentially
    /// transparent: reading the keyboard-status address first polls the
    /// input queue and rewrites the two device registers, so two reads of
    /// it need not agree.
    pub fn read(&mut self, address: u16, input: &mut InputQueue) -> (r: u16)
        requires
            old(self).wf(),
        ensures
            final(self).wf(),
            r == read_result(old(self)@, old(input)@, address),
            final(self)@ == mem_after_read(old(self)@, old(input)@, address),
            final(input)@ == input_after_read(old(input)@, address),
    {
        if address == KEYBOARD_STATUS_ADDRESS {
            self.handle_keyboard(input);
        }
        self.container[address as usize]
    }

    /// Store `value` at `address`. Stores are plain: the device registers
    /// get no special treatment on the write path.
    pub fn write(&mut self, address: u16, value: u16)
        requires
            old(self).wf(),
        ensures
            final(self).wf(),
            final(self)@ == old(self)@.update(address as int, value),
    {
        self.container.set(address as usize, value);
    }

    /// Look at a cell without any device side effect. The string-printing
    /// trap routines walk memory this way, and tests inspect the device
    /// registers with it.
    pub fn peek(&self, address: u16) -> (r: u16)
        requires
            self.wf(),
        ensures
            r == self@[address as int],
    {
        self.container[address as usize]
    }

    /// Poll the keyboard, non-blocking, and record the outcome in the two
    /// device registers: ready bit and byte when one is pending, a cleared
    /// status word otherwise.
    fn handle_keyboard(&mut self, input: &mut InputQueue)
        requires
            old(self).wf(),
        ensures
            final(self).wf(),
            final(self)@ == mem_after_read(old(self)@, old(input)@, KEYBOARD_STATUS_ADDRESS),
            final(input)@ == input_after_read(old(input)@, KEYBOARD_STATUS_ADDRESS),
    {
        match input.poll() {
            Some(byte) => {
                self.write(KEYBOARD_STATUS_ADDRESS, KEYBOARD_READY);
                self.write(KEYBOARD_DATA_ADDRESS, byte as u16);
            },
            None => {
                self.write(KEYBOARD_STATUS_ADDRESS, 0);
            },
        }
    }
}

/// Memory after storing `words` one after another starting at `origin`,
/// the address wrapping modulo 2^16 as it advances.
pub open spec fn store_words(mem: Seq<u16>, origin: u16, words: Seq<u16>) -> Seq<u16>
    decreases words.len(),
{
    if words.len() == 0 {
        mem
    } else {
        store_words(mem.update(origin as int, words[0]), wrap_add(origin, 1), words.drop_first())
    }
}

/// Storing one more word at the end of a block is one more update, at the
/// cell just past the block.
pub proof fn lemma_store_words_push(mem: Seq<u16>, origin: u16, words: Seq<u16>, w: u16)
    ensures
        store_words(mem, origin, words.push(w)) == store_words(mem, origin, words).update(
            wrap_at(origin, words.len() as int) as int,
            w,
        ),
    decreases words.len(),
{
    if words.len() == 0 {
        assert(words.push(w).drop_first() =~= Seq::<u16>::empty());
        assert(store_words(mem, origin, words.push(w)) == store_words(
            mem.update(origin as int, w),
            wrap_add(origin, 1),
            Seq::<u16>::empty(),
        ));
        assert(store_words(mem.update(origin as int, w), wrap_add(origin, 1),
            Seq::<u16>::empty()) == mem.update(origin as int, w));
        assert(store_words(mem, origin, words) == mem);
        vstd::arithmetic::div_mod::lemma_small_mod(origin as nat, 0x10000nat);
        assert(wrap_at(origin, 0) == origin);
    } else {
        let tail = words.drop_first();
        let o1 = wrap_add(origin, 1);
        let m1 = mem.update(origin as int, words[0]);
        assert(words.push(w).drop_first() =~= tail.push(w));
        assert(words.push(w)[0] == words[0]);
        assert(store_words(mem, origin, words.push(w)) == store_words(m1, o1, tail.push(w)));
        lemma_store_words_push(m1, o1, tail, w);
        assert(store_words(mem, origin, words) == store_words(m1, o1, tail));
        lemma_wrap_at_offset(origin, words.len() as int - 1);
        assert(wrap_at(o1, tail.len() as int) == wrap_at(origin, words.len() as int));
    }
}

/// Offsetting from the successor cell is offsetting one further from the
/// cell itself.
proof fn lemma_wrap_at_offset(origin: u16, offset: int)
    requires
        offset >= 0,
    ensures
        wrap_at(wrap_add(origin, 1), offset) == wrap_at(origin, offset + 1),
{
    let m = 0x10000int;
    let s = (origin + 1) % m;
    assert(0 <= s < m) by {
        vstd::arithmetic::div_mod::lemma_mod_bound(origin + 1, m);
    }
    assert((s + offset) % m == (origin + 1 + offset) % m) by {
        vstd::arithmetic::div_mod::lemma_add_mod_noop(origin + 1, offset, m);
        vstd::arithmetic::div_mod::lemma_add_mod_noop(s, offset, m);
        vstd::arithmetic::div_mod::lemma_mod_twice(origin + 1, m);
        vstd::arithmetic::div_mod::lemma_mod_twice(offset, m);
    }
}

/// Loading a single-word image and then reading back at its origin returns
/// the word unchanged. The read is a plain load as long as the origin is
/// not the side-effecting keyboard-status register.
pub proof fn lemma_load_round_trip(input: Seq<u8>, origin: u16, w: u16)
    requires
        origin != KEYBOARD_STATUS_ADDRESS,
    ensures
        read_result(store_words(zero_memory(), origin, seq![w]), input, origin) == w,
{
    let loaded = zero_memory().update(origin as int, w);
    assert(seq![w].drop_first() =~= Seq::<u16>::empty());
    assert(store_words(zero_memory(), origin, seq![w]) == store_words(
        loaded,
        wrap_add(origin, 1),
        Seq::<u16>::empty(),
    ));
    assert(store_words(loaded, wrap_add(origin, 1), Seq::<u16>::empty()) == loaded);
}

} // verus!
