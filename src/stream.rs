use vstd::prelude::*;

verus! {

/// One step of reading a byte source.
pub enum ByteEvent {
    Byte(u8),
    End,
    Fault(std::io::ErrorKind),
}

/// A byte source with one byte of lookahead: the bytes it holds, then either a
/// clean end (`fault` is `None`) or a read failure.
pub struct ByteStream {
    bytes: Vec<u8>,
    pos: usize,
    fault: Option<std::io::ErrorKind>,
}

impl ByteStream {
    pub closed spec fn wf(&self) -> bool {
        self.pos <= self.bytes@.len()
    }

    /// The bytes not read yet.
    pub closed spec fn rest(&self) -> Seq<u8> {
        self.bytes@.subrange(self.pos as int, self.bytes@.len() as int)
    }

    /// What the source reports once its bytes are exhausted.
    pub closed spec fn end_fault(&self) -> Option<std::io::ErrorKind> {
        self.fault
    }

    /// A source that ends cleanly after `bytes`.
    pub fn new(bytes: Vec<u8>) -> (r: ByteStream)
        ensures
            r.wf(),
            r.rest() == bytes@,
            r.end_fault() is None,
    {
        let r = ByteStream { bytes, pos: 0, fault: None };
        assert(r.rest() =~= r.bytes@);
        r
    }

    /// A source that fails with `kind` after `bytes`.
    pub fn with_fault(bytes: Vec<u8>, kind: std::io::ErrorKind) -> (r: ByteStream)
        ensures
            r.wf(),
            r.rest() == bytes@,
            r.end_fault() == Some(kind),
    {
        let r = ByteStream { bytes, pos: 0, fault: Some(kind) };
        assert(r.rest() =~= r.bytes@);
        r
    }

    /// Looks at the next event without consuming it.
    pub fn peek(&self) -> (r: ByteEvent)
        requires
            self.wf(),
        ensures
            self.rest().len() > 0 ==> r == ByteEvent::Byte(self.rest()[0]),
            self.rest().len() == 0 && self.end_fault() is None ==> r is End,
            self.rest().len() == 0 && self.end_fault() is Some ==> r == ByteEvent::Fault(
                self.end_fault()->0,
            ),
    {
        if self.pos < self.bytes.len() {
            ByteEvent::Byte(self.bytes[self.pos])
        } else {
            match self.fault {
                Some(k) => ByteEvent::Fault(k),
                None => ByteEvent::End,
            }
        }
    }

    /// Consumes the next byte, if there is one.
    pub fn advance(&mut self)
        requires
            old(self).wf(),
        ensures
            final(self).wf(),
            final(self).end_fault() == old(self).end_fault(),
            old(self).rest().len() > 0 ==> final(self).rest() == old(self).rest().skip(1),
            old(self).rest().len() == 0 ==> final(self).rest() == old(self).rest(),
    {
        if self.pos < self.bytes.len() {
            self.pos = self.pos + 1;
            assert(self.rest() =~= old(self).rest().skip(1));
        }
    }
}

} // verus!
