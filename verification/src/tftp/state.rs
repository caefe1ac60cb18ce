//! The per-session TFTP transfer state machine: lock-step DATA/ACK flow over
//! 512-byte blocks, retransmission, and completion on a short final block.

use vstd::prelude::*;
use crate::tftp::packet::{Error, Packet, PacketModel};

verus! {

/// How a file read failed: the name is not served, or the provider broke.
#[derive(Debug, PartialEq, Eq, Structural, Clone, Copy)]
pub enum FileError {
    NotFound,
    Failed,
}

/// A source of file chunks for one transfer. `contents` and `pos` are the
/// ghost file image and read offset that `read` is measured against.
pub trait Reader: Sized {
    open spec fn contents(&self) -> Seq<u8> {
        Seq::<u8>::empty()
    }

    open spec fn pos(&self) -> nat {
        0
    }

    /// Hands out the next chunk: 512 bytes, or fewer exactly once at the end
    /// of the file.
    fn read(&mut self) -> (r: Result<Vec<u8>, FileError>)
        requires
            old(self).pos() <= old(self).contents().len(),
        ensures
            final(self).contents() == old(self).contents(),
            match r {
                Ok(chunk) => {
                    &&& chunk@ == old(self).contents().subrange(
                        old(self).pos() as int,
                        chunk_end(old(self).contents().len() as int, old(self).pos() as int),
                    )
                    &&& final(self).pos() == chunk_end(
                        old(self).contents().len() as int,
                        old(self).pos() as int,
                    )
                },
                Err(_) => final(self).pos() == old(self).pos(),
            },
    ;
}

/// Where a chunk that starts at `pos` in a file of length `len` ends.
pub open spec fn chunk_end(len: int, pos: int) -> int {
    vstd::math::min(pos + 512, len)
}

/// Resolves filenames to readers. `file_contents` is the ghost catalog of
/// served files that `create_reader` is measured against.
pub trait Handler {
    type Reader: Reader;

    open spec fn file_contents(&self, filename: Seq<char>) -> Option<Seq<u8>> {
        None
    }

    /// Opens a served file for reading from its start; unknown names fail
    /// with `NotFound`.
    fn create_reader(&self, filename: &str) -> (r: Result<Self::Reader, FileError>)
        ensures
            match r {
                Ok(reader) => {
                    &&& self.file_contents(filename@) == Some(reader.contents())
                    &&& reader.pos() == 0
                },
                Err(FileError::NotFound) => self.file_contents(filename@) is None,
                Err(FileError::Failed) => true,
            },
    ;
}

/// The reply to one inbound packet or timeout, and whether the session goes
/// on.
#[derive(Debug)]
pub enum ControlFlow {
    Continue(Packet),
    Closed(Option<Packet>),
}

/// The mathematical shape of a control-flow decision.
pub enum ControlFlowModel {
    Continue(PacketModel),
    Closed(Option<PacketModel>),
}

impl View for ControlFlow {
    type V = ControlFlowModel;

    open spec fn view(&self) -> ControlFlowModel {
        match self {
            ControlFlow::Continue(p) => ControlFlowModel::Continue(p@),
            ControlFlow::Closed(Some(p)) => ControlFlowModel::Closed(Some(p@)),
            ControlFlow::Closed(None) => ControlFlowModel::Closed(None),
        }
    }
}

/// One transfer's state: untouched, mid-read, or finished.
enum TransferState<R> {
    Uninitialized,
    Reading { filename: String, mode: String, block: u16, reader: R, data: Vec<u8> },
    Complete,
}

/// The mathematical shape of a transfer state: the block number, the whole
/// file, and the block bytes last sent.
pub enum SessionModel {
    Uninitialized,
    Reading { block: u16, contents: Seq<u8>, data: Seq<u8> },
    Complete,
}

/// The bytes of block number `block` (counted from 1) of file `c`.
pub open spec fn chunk_at(c: Seq<u8>, block: int) -> Seq<u8> {
    c.subrange(vstd::math::min((block - 1) * 512, c.len() as int), vstd::math::min(
        block * 512,
        c.len() as int,
    ))
}

/// How many DATA blocks a file of length `len` is sent in: a final short
/// block always closes the transfer, so an exact multiple of 512 gets an
/// empty trailer block.
pub open spec fn num_blocks(len: int) -> int {
    len / 512 + 1
}

/// The DATA blocks of a file of length `len` have sizes
/// `[512, 512, ..., len % 512]`: every block before the last carries exactly
/// 512 bytes, and the last carries `len % 512`, strictly fewer than 512 --
/// an empty trailer block when `len` is a positive multiple of 512.
pub proof fn lemma_block_sizes(c: Seq<u8>, block: int)
    requires
        1 <= block <= num_blocks(c.len() as int),
    ensures
        block < num_blocks(c.len() as int) ==> chunk_at(c, block).len() == 512,
        block == num_blocks(c.len() as int) ==> chunk_at(c, block).len() == c.len() as int % 512
            < 512,
{
    let len = c.len() as int;
    if block < num_blocks(len) {
        assert(block <= len / 512);
        assert(block * 512 <= (len / 512) * 512 <= len) by (nonlinear_arith)
            requires
                block <= len / 512,
                0 <= len,
        ;
    } else {
        assert((block - 1) * 512 == (len / 512) * 512);
        assert((len / 512) * 512 + len % 512 == len);
    }
}

/// A live TFTP session: the transfer state, the file handler, and the count
/// of consecutive timeouts.
pub struct State<H: Handler> {
    state: TransferState<H::Reader>,
    handler: H,
    timeouts: u32,
    timeout_limit: u32,
}

/// What one step of the session may do with an inbound packet, given the
/// state before (`pre`), the ghost lookup result for an RRQ filename
/// (`found`), the state after (`post`) and the reply (`resp`). The
/// alternatives joined by `||` in the RRQ and block-advance cases cover a
/// file provider that fails on open or read.
pub open spec fn step(
    pre: SessionModel,
    packet: PacketModel,
    found: Option<Seq<u8>>,
    post: SessionModel,
    resp: ControlFlowModel,
) -> bool {
    match pre {
        SessionModel::Uninitialized => match packet {
            PacketModel::Rrq { filename, mode } => (found matches Some(c) && post
                == (SessionModel::Reading { block: 1, contents: c, data: chunk_at(c, 1) }) && resp
                == ControlFlowModel::Continue(
                PacketModel::Data { block: 1, data: chunk_at(c, 1) },
            )) || (found is None && post is Complete && resp == closed_error(
                Error::FileNotFound,
            )) || (post is Complete && resp == closed_error(Error::Undefined)),
            _ => post is Complete && resp == closed_error(Error::IllegalOperation),
        },
        SessionModel::Reading { block, contents, data } => match packet {
            PacketModel::Ack { block: n } => {
                if n == block && data.len() < 512 {
                    post is Complete && resp == ControlFlowModel::Closed(None::<PacketModel>)
                } else if n == block && block == 0xFFFF {
                    post is Complete && resp == closed_error(Error::Undefined)
                } else if n == block {
                    (post == (SessionModel::Reading {
                        block: (block + 1) as u16,
                        contents,
                        data: chunk_at(contents, block + 1),
                    }) && resp == ControlFlowModel::Continue(
                        PacketModel::Data {
                            block: (block + 1) as u16,
                            data: chunk_at(contents, block + 1),
                        },
                    )) || (post is Complete && resp == closed_error(Error::Undefined))
                } else if n == block - 1 {
                    post == pre && resp == ControlFlowModel::Continue(
                        PacketModel::Data { block, data },
                    )
                } else {
                    post is Complete && resp == closed_error(Error::IllegalOperation)
                }
            },
            PacketModel::Error { .. } => post is Complete && resp == ControlFlowModel::Closed(
                None::<PacketModel>,
            ),
            _ => post is Complete && resp == closed_error(Error::IllegalOperation),
        },
        SessionModel::Complete => post is Complete && resp == ControlFlowModel::Closed(
            None::<PacketModel>,
        ),
    }
}

/// A session that closes with an ERROR reply carrying `code` and an empty
/// message.
pub open spec fn closed_error(code: Error) -> ControlFlowModel {
    ControlFlowModel::Closed(
        Some(PacketModel::Error { code, message: Seq::<char>::empty() }),
    )
}

impl<H: Handler> State<H> {
    /// The mathematical shape of the current transfer state.
    pub closed spec fn model(&self) -> SessionModel {
        match self.state {
            TransferState::Uninitialized => SessionModel::Uninitialized,
            TransferState::Reading { block, ref reader, ref data, .. } => SessionModel::Reading {
                block,
                contents: reader.contents(),
                data: data@,
            },
            TransferState::Complete => SessionModel::Complete,
        }
    }

    /// The ghost lookup result the handler would give for this packet's
    /// filename; meaningful only for RRQ packets.
    pub closed spec fn lookup(&self, packet: PacketModel) -> Option<Seq<u8>> {
        match packet {
            PacketModel::Rrq { filename, .. } => self.handler.file_contents(filename),
            _ => None,
        }
    }

    /// A session mid-read is consistent: the block counter starts at 1, the
    /// reader has handed out exactly the blocks up to it, and the block
    /// bytes last sent are the block the counter names.
    pub closed spec fn inv(&self) -> bool {
        match self.state {
            TransferState::Reading { block, ref reader, ref data, .. } => {
                &&& 1 <= block
                &&& (block - 1) * 512 <= reader.contents().len()
                &&& reader.pos() == vstd::math::min(block * 512, reader.contents().len() as int)
                &&& data@ == chunk_at(reader.contents(), block as int)
            },
            _ => true,
        }
    }

    /// The handler the session was created with.
    pub closed spec fn spec_handler(&self) -> H {
        self.handler
    }

    /// Opens a fresh session around a file handler, with the consecutive
    /// timeout allowance at its default of 5.
    pub fn new(handler: H) -> (r: State<H>)
        ensures
            r.model() is Uninitialized,
            r.inv(),
            r.spec_handler() == handler,
            r.timeout_allowance() == 5,
            r.timeouts_left() == 5,
    {
        State { state: TransferState::Uninitialized, handler, timeouts: 0, timeout_limit: 5 }
    }

    /// Feeds one inbound packet to the state machine and returns the reply
    /// and whether the session goes on; also clears the consecutive-timeout
    /// count.
    pub fn handle(&mut self, packet: Packet) -> (r: ControlFlow)
        requires
            old(self).inv(),
        ensures
            final(self).inv(),
            final(self).spec_handler() == old(self).spec_handler(),
            final(self).timeout_allowance() == old(self).timeout_allowance(),
            final(self).timeouts_left() == final(self).timeout_allowance(),
            step(old(self).model(), packet@, old(self).lookup(packet@), final(self).model(), r@),
    {
        self.timeouts = 0;
        let mut cur: TransferState<H::Reader> = TransferState::Complete;
        core::mem::swap(&mut self.state, &mut cur);
        match cur {
            TransferState::Uninitialized => match packet {
                Packet::Rrq { filename, mode } => {
                    let mut reader = match self.handler.create_reader(filename.as_str()) {
                        Ok(reader) => reader,
                        Err(FileError::NotFound) => {
                            self.state = TransferState::Complete;
                            return ControlFlow::Closed(
                                Some(
                                    Packet::Error {
                                        code: Error::FileNotFound,
                                        message: String::new(),
                                    },
                                ),
                            );
                        },
                        Err(FileError::Failed) => {
                            self.state = TransferState::Complete;
                            return ControlFlow::Closed(
                                Some(
                                    Packet::Error { code: Error::Undefined, message: String::new() },
                                ),
                            );
                        },
                    };
                    match reader.read() {
                        Ok(data) => {
                            let reply = Packet::Data { block: 1, data: clone_bytes(&data) };
                            self.state = TransferState::Reading {
                                filename,
                                mode,
                                block: 1,
                                reader,
                                data,
                            };
                            ControlFlow::Continue(reply)
                        },
                        Err(_) => {
                            self.state = TransferState::Complete;
                            ControlFlow::Closed(
                                Some(
                                    Packet::Error { code: Error::Undefined, message: String::new() },
                                ),
                            )
                        },
                    }
                },
                _ => {
                    self.state = TransferState::Complete;
                    ControlFlow::Closed(
                        Some(Packet::Error { code: Error::IllegalOperation, message: String::new() }),
                    )
                },
            },
            TransferState::Reading { filename, mode, block, mut reader, data } => match packet {
                Packet::Ack { block: n } => {
                    if n == block && data.len() < 512 {
                        self.state = TransferState::Complete;
                        ControlFlow::Closed(None)
                    } else if n == block && block == 0xFFFF {
                        self.state = TransferState::Complete;
                        ControlFlow::Closed(
                            Some(
                                Packet::Error { code: Error::Undefined, message: String::new() },
                            ),
                        )
                    } else if n == block {
                        match reader.read() {
                            Ok(next) => {
                                let reply = Packet::Data {
                                    block: block + 1,
                                    data: clone_bytes(&next),
                                };
                                self.state = TransferState::Reading {
                                    filename,
                                    mode,
                                    block: block + 1,
                                    reader,
                                    data: next,
                                };
                                ControlFlow::Continue(reply)
                            },
                            Err(_) => {
                                self.state = TransferState::Complete;
                                ControlFlow::Closed(
                                    Some(
                                        Packet::Error {
                                            code: Error::Undefined,
                                            message: String::new(),
                                        },
                                    ),
                                )
                            },
                        }
                    } else if block >= 1 && n == block - 1 {
                        let reply = Packet::Data { block, data: clone_bytes(&data) };
                        self.state = TransferState::Reading { filename, mode, block, reader, data };
                        ControlFlow::Continue(reply)
                    } else {
                        self.state = TransferState::Complete;
                        ControlFlow::Closed(
                            Some(
                                Packet::Error {
                                    code: Error::IllegalOperation,
                                    message: String::new(),
                                },
                            ),
                        )
                    }
                },
                Packet::Error { .. } => {
                    self.state = TransferState::Complete;
                    ControlFlow::Closed(None)
                },
                _ => {
                    self.state = TransferState::Complete;
                    ControlFlow::Closed(
                        Some(Packet::Error { code: Error::IllegalOperation, message: String::new() }),
                    )
                },
            },
            TransferState::Complete => {
                self.state = TransferState::Complete;
                ControlFlow::Closed(None)
            },
        }
    }

    /// Notes a receive timeout: resends the current block while the
    /// consecutive-timeout allowance lasts, and closes the session silently
    /// once it is spent or when no transfer is under way.
    pub fn handle_timeout(&mut self) -> (r: ControlFlow)
        requires
            old(self).inv(),
        ensures
            final(self).inv(),
            final(self).spec_handler() == old(self).spec_handler(),
            final(self).timeout_allowance() == old(self).timeout_allowance(),
            match old(self).model() {
                SessionModel::Reading { block, contents, data } => {
                    (old(self).timeouts_left() > 1 && final(self).model() == old(self).model()
                        && final(self).timeouts_left() == old(self).timeouts_left() - 1 && r@
                        == ControlFlowModel::Continue(PacketModel::Data { block, data }))
                    || (old(self).timeouts_left() <= 1 && final(self).model() is Complete && r@
                        == ControlFlowModel::Closed(None::<PacketModel>))
                },
                _ => final(self).model() == old(self).model() && final(self).timeouts_left()
                    == old(self).timeouts_left() && r@ == ControlFlowModel::Closed(
                    None::<PacketModel>,
                ),
            },
    {
        match &self.state {
            TransferState::Uninitialized => ControlFlow::Closed(None),
            TransferState::Reading { block, data, .. } => {
                if self.timeouts == u32::MAX || self.timeouts + 1 >= self.timeout_limit {
                    self.state = TransferState::Complete;
                    ControlFlow::Closed(None)
                } else {
                    self.timeouts = self.timeouts + 1;
                    ControlFlow::Continue(Packet::Data { block: *block, data: clone_bytes(data) })
                }
            },
            TransferState::Complete => ControlFlow::Closed(None),
        }
    }

    /// The configured allowance of consecutive timeouts.
    pub closed spec fn timeout_allowance(&self) -> int {
        self.timeout_limit as int
    }

    /// How many consecutive timeouts the session will still ride out before
    /// closing.
    pub closed spec fn timeouts_left(&self) -> int {
        if self.timeouts >= self.timeout_limit {
            0
        } else {
            self.timeout_limit - self.timeouts
        }
    }
}

/// A file provider over one in-memory image: the whitelisted filename
/// resolves to the image, and every other name is not found.
pub struct MemoryProvider {
    pub filename: String,
    pub contents: Vec<u8>,
}

/// A reader over an in-memory image, handing out 512-byte chunks.
pub struct MemoryReader {
    pub data: Vec<u8>,
    pub position: usize,
}

impl Reader for MemoryReader {
    open spec fn contents(&self) -> Seq<u8> {
        self.data@
    }

    open spec fn pos(&self) -> nat {
        self.position as nat
    }

    fn read(&mut self) -> (r: Result<Vec<u8>, FileError>) {
        let end = if self.data.len() - self.position > 512 {
            self.position + 512
        } else {
            self.data.len()
        };
        let chunk = vstd::slice::slice_to_vec(
            vstd::slice::slice_subrange(self.data.as_slice(), self.position, end),
        );
        self.position = end;
        Ok(chunk)
    }
}

impl Handler for MemoryProvider {
    type Reader = MemoryReader;

    open spec fn file_contents(&self, filename: Seq<char>) -> Option<Seq<u8>> {
        if filename == self.filename@ {
            Some(self.contents@)
        } else {
            None
        }
    }

    fn create_reader(&self, filename: &str) -> (r: Result<MemoryReader, FileError>) {
        if crate::text::str_eq(filename, self.filename.as_str()) {
            let data = clone_bytes(&self.contents);
            Ok(MemoryReader { data, position: 0 })
        } else {
            Err(FileError::NotFound)
        }
    }
}

/// Copies a byte vector.
fn clone_bytes(v: &Vec<u8>) -> (r: Vec<u8>)
    ensures
        r@ == v@,
{
    let mut r: Vec<u8> = Vec::new();
    crate::wire::append_bytes(&mut r, v.as_slice());
    proof {
        assert(r@ =~= v@);
    }
    r
}

} // verus!
