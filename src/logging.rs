//! A fixed-capacity ring buffer that overwrites its oldest element when full.
use vstd::prelude::*;

verus! {

/// The modulus of the ring's offsets.
pub const LOG_BUFFER_SIZE: usize = 0xFFFF;

/// Read-only temporary records; once full, new elements overwrite the
/// oldest ones.
pub struct LogBuffer<T: Copy> {
    buf: Vec<T>,
    start_offset: usize,
    end_offset: usize,
    since_last_flush: usize,
}

/// The slots, the offset of the oldest element and the offset where the
/// next element goes.
pub type LogView<T> = (Seq<T>, int, int);

/// The state after appending `byte` to `l`.
pub open spec fn log_step<T>(l: LogView<T>, byte: T) -> LogView<T> {
    (
        l.0.update(l.2, byte),
        if l.1 == l.2 {
            (l.1 + 1) % (LOG_BUFFER_SIZE as int)
        } else {
            l.1
        },
        (l.2 + 1) % (LOG_BUFFER_SIZE as int),
    )
}

/// The state after appending each element of `s` in turn.
pub open spec fn log_after<T>(l: LogView<T>, s: Seq<T>) -> LogView<T>
    decreases s.len(),
{
    if s.len() == 0 {
        l
    } else {
        log_step(log_after(l, s.drop_last()), s.last())
    }
}

impl<T: Copy> View for LogBuffer<T> {
    type V = LogView<T>;

    closed spec fn view(&self) -> LogView<T> {
        (self.buf@, self.start_offset as int, self.end_offset as int)
    }
}

impl<T: Copy> LogBuffer<T> {
    /// Slots and offsets are in range.
    pub closed spec fn wf(&self) -> bool {
        &&& self.buf@.len() == LOG_BUFFER_SIZE + 1
        &&& self.start_offset < LOG_BUFFER_SIZE
        &&& self.end_offset < LOG_BUFFER_SIZE
    }

    /// An empty buffer whose slots all hold `fill`.
    pub fn new(fill: T) -> (r: LogBuffer<T>)
        ensures
            r.wf(),
            r@.0 == Seq::new((LOG_BUFFER_SIZE + 1) as nat, |i: int| fill),
            r@.1 == 0,
            r@.2 == 0,
    {
        let mut buf: Vec<T> = Vec::new();
        let mut i: usize = 0;
        while i < LOG_BUFFER_SIZE + 1
            invariant
                i <= LOG_BUFFER_SIZE + 1,
                buf@ == Seq::new(i as nat, |j: int| fill),
            decreases LOG_BUFFER_SIZE + 1 - i,
        {
            buf.push(fill);
            i = i + 1;
            assert(buf@ =~= Seq::new(i as nat, |j: int| fill));
        }
        LogBuffer { buf, start_offset: 0, end_offset: 0, since_last_flush: 0 }
    }

    /// Appends each element of `buf` in turn.
    pub fn append_buf(&mut self, buf: &[T])
        requires
            old(self).wf(),
        ensures
            final(self).wf(),
            final(self)@ == log_after(old(self)@, buf@),
    {
        let ghost start = self@;
        let mut i: usize = 0;
        while i < buf.len()
            invariant
                self.wf(),
                i <= buf@.len(),
                self@ == log_after(start, buf@.take(i as int)),
            decreases buf@.len() - i,
        {
            self.append_byte(buf[i]);
            assert(buf@.take(i + 1).drop_last() =~= buf@.take(i as int));
            i = i + 1;
        }
        assert(buf@.take(i as int) =~= buf@);
    }

    /// Writes `byte` at the end offset and advances it; when the buffer is
    /// full, the start offset advances too.
    pub fn append_byte(&mut self, byte: T)
        requires
            old(self).wf(),
        ensures
            final(self).wf(),
            final(self)@ == log_step(old(self)@, byte),
    {
        self.buf.set(self.end_offset, byte);
        if self.start_offset == self.end_offset {
            self.start_offset = (self.start_offset + 1) % LOG_BUFFER_SIZE;
        }
        self.end_offset = (self.end_offset + 1) % LOG_BUFFER_SIZE;
    }

    /// The offset of the oldest element and the offset where the next one
    /// goes.
    pub fn offsets(&self) -> (r: (usize, usize))
        ensures
            r.0 == self@.1 && r.1 == self@.2,
    {
        (self.start_offset, self.end_offset)
    }

    /// Nothing to write out yet.
    pub fn flush() {
    }
}

} // verus!
