//! Filling a buffer from a source that may hand out its bytes in pieces.
use vstd::prelude::*;

verus! {

/// The outcome of one read.
pub enum ReadEvent<'a> {
    /// The bytes that were read; none at the end of the source.
    Data(&'a [u8]),
    /// The read was interrupted and can be repeated.
    Interrupted,
    /// The read failed; the source counts as ended.
    Failed,
}

impl<'a> ReadEvent<'a> {
    /// The bytes that the read brought.
    pub open spec fn bytes(self) -> Seq<u8> {
        match self {
            ReadEvent::Data(d) => d@,
            _ => Seq::empty(),
        }
    }

    /// Whether no bytes follow.
    pub open spec fn ends(self) -> bool {
        match self {
            ReadEvent::Data(d) => d@.len() == 0,
            ReadEvent::Interrupted => false,
            ReadEvent::Failed => true,
        }
    }
}

/// A buffer that is being filled up to a limit.
pub struct Fill {
    /// How many bytes the buffer takes.
    pub limit: usize,
    /// What has been read so far.
    pub buf: Vec<u8>,
    /// Whether the source has ended.
    pub ended: bool,
}

impl Fill {
    /// The buffer never holds more than its limit.
    pub open spec fn wf(&self) -> bool {
        self.buf@.len() <= self.limit
    }

    /// Whether nothing more is to be read into the buffer.
    pub open spec fn full(&self) -> bool {
        self.ended || self.buf@.len() == self.limit
    }

    /// An empty buffer for up to `limit` bytes.
    pub fn new(limit: usize) -> (f: Fill)
        ensures
            f.wf(),
            f.limit == limit,
            f.buf@ == Seq::<u8>::empty(),
            !f.ended,
    {
        Fill { limit, buf: Vec::new(), ended: false }
    }

    /// How many bytes the next read may bring; none when nothing more is to
    /// be read.
    pub fn wanted(&self) -> (n: usize)
        requires
            self.wf(),
        ensures
            n == (if self.full() {
                0
            } else {
                self.limit - self.buf@.len()
            }),
    {
        if self.ended {
            0
        } else {
            self.limit - self.buf.len()
        }
    }

    /// Takes the outcome of one read.
    pub fn on_read(&mut self, event: ReadEvent<'_>)
        requires
            old(self).wf(),
            old(self).buf@.len() + event.bytes().len() <= old(self).limit,
        ensures
            final(self).wf(),
            final(self).limit == old(self).limit,
            final(self).buf@ == old(self).buf@ + event.bytes(),
            final(self).ended == (old(self).ended || event.ends()),
    {
        match event {
            ReadEvent::Data(d) => {
                if d.len() == 0 {
                    self.ended = true;
                }
                let ghost before = self.buf@;
                for i in 0..d.len()
                    invariant
                        self.buf@ == before + d@.take(i as int),
                        self.limit == old(self).limit,
                        self.ended == (old(self).ended || d@.len() == 0),
                {
                    self.buf.push(d[i]);
                }
                assert(d@.take(d@.len() as int) == d@);
            },
            ReadEvent::Interrupted => {},
            ReadEvent::Failed => {
                self.ended = true;
            },
        }
        assert(self.buf@ == old(self).buf@ + event.bytes());
    }
}

} // verus!
