//! A 16550-style UART. A byte is written while the line status says the transmitter has room,
//! and read while it says data is ready; the device is modelled by the room its transmitter has
//! left and the bytes its receiver holds.

use vstd::prelude::*;

verus! {

/// The default UART address.
pub const BASE: u64 = 0x1000_0000;

/// Error returned if nothing could be written.
#[derive(Clone, Copy, Debug, PartialEq, Eq)]
pub enum WriteError {
    /// There is no data to write.
    DataIsZeroSized,
    /// The device accepted no data.
    Full,
}

/// Error returned if nothing could be read.
#[derive(Clone, Copy, Debug, PartialEq, Eq)]
pub enum ReadError {
    /// There is no room to read into.
    BufferIsZeroSized,
    /// The device had no data.
    Empty,
}

/// A UART.
pub struct UART {
    /// The address of its registers.
    address: u64,
    /// How many more bytes the transmitter accepts.
    tx_room: usize,
    /// The bytes sent so far.
    sent: Vec<u8>,
    /// The bytes the receiver holds, the oldest first.
    received: Vec<u8>,
}

/// The abstract state of a UART.
pub ghost struct UartView {
    pub address: u64,
    pub tx_room: nat,
    pub sent: Seq<u8>,
    pub received: Seq<u8>,
}

impl UART {
    pub closed spec fn view(&self) -> UartView {
        UartView { address: self.address, tx_room: self.tx_room as nat, sent: self.sent@, received: self.received@ }
    }

    /// A UART at the given address whose transmitter accepts `tx_room` bytes and whose receiver
    /// holds `received`.
    pub fn new(address: u64, tx_room: usize, received: Vec<u8>) -> (r: Self)
        ensures
            r@ == (UartView { address, tx_room: tx_room as nat, sent: Seq::empty(), received: received@ }),
    {
        UART { address, tx_room, sent: Vec::new(), received }
    }

    /// Write one byte if the transmitter has room.
    fn putc(&mut self, c: u8) -> (r: bool)
        ensures
            r == (old(self)@.tx_room > 0),
            r ==> final(self)@ == (UartView { tx_room: (old(self)@.tx_room - 1) as nat, sent: old(self)@.sent.push(c), ..old(self)@ }),
            !r ==> final(self)@ == old(self)@,
    {
        if self.tx_room > 0 {
            self.tx_room = self.tx_room - 1;
            self.sent.push(c);
            true
        } else {
            false
        }
    }

    /// Read one byte if the receiver holds one.
    fn getc(&mut self) -> (r: Option<u8>)
        ensures
            old(self)@.received.len() == 0 ==> r is None && final(self)@ == old(self)@,
            old(self)@.received.len() > 0 ==> r == Some(old(self)@.received[0]) && final(self)@ == (UartView {
                received: old(self)@.received.drop_first(),
                ..old(self)@
            }),
    {
        if self.received.len() > 0 {
            let c = self.received.remove(0);
            assert(self.received@ =~= old(self)@.received.drop_first());
            Some(c)
        } else {
            None
        }
    }

    /// Write as much of `data` as the transmitter accepts, from the start; returns how much.
    pub fn write(&mut self, data: &[u8]) -> (r: Result<usize, WriteError>)
        ensures
            data@.len() == 0 ==> r == Err::<usize, WriteError>(WriteError::DataIsZeroSized) && final(self)@ == old(self)@,
            data@.len() > 0 && old(self)@.tx_room == 0 ==> r == Err::<usize, WriteError>(WriteError::Full)
                && final(self)@ == old(self)@,
            data@.len() > 0 && old(self)@.tx_room > 0 ==> {
                let n = if data@.len() < old(self)@.tx_room { data@.len() } else { old(self)@.tx_room };
                &&& r == Ok::<usize, WriteError>(n as usize)
                &&& final(self)@ == (UartView {
                    tx_room: (old(self)@.tx_room - n) as nat,
                    sent: old(self)@.sent + data@.take(n as int),
                    ..old(self)@
                })
            },
    {
        if data.len() == 0 {
            return Err(WriteError::DataIsZeroSized);
        }
        let mut i: usize = 0;
        while self.putc(data[i])
            invariant_except_break
                0 <= i < data@.len(),
                i <= old(self)@.tx_room,
                self@ == (UartView {
                    tx_room: (old(self)@.tx_room - i) as nat,
                    sent: old(self)@.sent + data@.take(i as int),
                    ..old(self)@
                }),
            ensures
                i <= data@.len(),
                i == (if data@.len() < old(self)@.tx_room { data@.len() } else { old(self)@.tx_room }),
                self@ == (UartView {
                    tx_room: (old(self)@.tx_room - i) as nat,
                    sent: old(self)@.sent + data@.take(i as int),
                    ..old(self)@
                }),
            decreases data@.len() - i,
        {
            assert(old(self)@.sent + data@.take(i + 1) =~= (old(self)@.sent + data@.take(i as int)).push(data@[i as int]));
            i = i + 1;
            if data.len() <= i {
                break;
            }
        }
        if i == 0 {
            Err(WriteError::Full)
        } else {
            Ok(i)
        }
    }

    /// Read as many bytes as the receiver holds into `buffer`, from its start; returns how many.
    pub fn read(&mut self, buffer: &mut Vec<u8>) -> (r: Result<usize, ReadError>)
        ensures
            final(buffer)@.len() == old(buffer)@.len(),
            old(buffer)@.len() == 0 ==> r == Err::<usize, ReadError>(ReadError::BufferIsZeroSized) && final(self)@ == old(self)@,
            old(buffer)@.len() > 0 && old(self)@.received.len() == 0 ==> r == Err::<usize, ReadError>(ReadError::Empty)
                && final(self)@ == old(self)@ && final(buffer)@ == old(buffer)@,
            old(buffer)@.len() > 0 && old(self)@.received.len() > 0 ==> {
                let n = if old(buffer)@.len() < old(self)@.received.len() { old(buffer)@.len() } else { old(self)@.received.len() };
                &&& r == Ok::<usize, ReadError>(n as usize)
                &&& final(buffer)@ == old(self)@.received.take(n as int) + old(buffer)@.skip(n as int)
                &&& final(self)@ == (UartView { received: old(self)@.received.skip(n as int), ..old(self)@ })
            },
    {
        if buffer.len() == 0 {
            return Err(ReadError::BufferIsZeroSized);
        }
        let n = buffer.len();
        let mut i: usize = 0;
        assert(old(self)@.received.skip(0) =~= old(self)@.received);
        assert(buffer@ =~= old(self)@.received.take(0) + old(buffer)@.skip(0));
        loop
            invariant_except_break
                0 <= i < buffer@.len(),
                n == buffer@.len(),
                buffer@.len() == old(buffer)@.len(),
                i <= old(self)@.received.len(),
                self@ == (UartView { received: old(self)@.received.skip(i as int), ..old(self)@ }),
                buffer@ == old(self)@.received.take(i as int) + old(buffer)@.skip(i as int),
            ensures
                buffer@.len() == old(buffer)@.len(),
                i == (if old(buffer)@.len() < old(self)@.received.len() { old(buffer)@.len() } else { old(self)@.received.len() }),
                self@ == (UartView { received: old(self)@.received.skip(i as int), ..old(self)@ }),
                buffer@ == old(self)@.received.take(i as int) + old(buffer)@.skip(i as int),
            decreases old(buffer)@.len() - i,
        {
            match self.getc() {
                Some(b) => {
                    buffer.set(i, b);
                    assert(old(self)@.received.skip(i as int).drop_first() =~= old(self)@.received.skip(i + 1));
                    assert(buffer@ =~= old(self)@.received.take(i + 1) + old(buffer)@.skip(i + 1));
                    i = i + 1;
                    if n <= i {
                        break;
                    }
                },
                None => {
                    break;
                },
            }
        }
        if i == 0 {
            Err(ReadError::Empty)
        } else {
            Ok(i)
        }
    }
}

} // verus!
