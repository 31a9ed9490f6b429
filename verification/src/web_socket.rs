//! The connection value: a sans-io WebSocket engine.
//!
//! Bytes received from the stream are handed in through [`WebSocket::feed`];
//! [`WebSocket::read_frame`] assembles messages out of them and queues the
//! protocol's automatic replies; [`WebSocket::write_frame`] queues outgoing
//! frames. The caller moves the queued bytes to the stream with
//! [`WebSocket::take_output`].

use vstd::prelude::*;
use vstd::utf8::valid_utf8;
use crate::compression::NegotiatedCompression;
use crate::connection_state::ConnectionState;
use crate::error::Error;
use crate::frame::{Frame, PayloadTy};
use crate::incremental_utf8::IncompleteUtf8Char;
use crate::op_code::OpCode;
use crate::partitioned_filled_buffer::PartitionedFilledBuffer;
use crate::read_frame_info::ReadFrameInfo;
use crate::rng::Xorshift64;
use crate::web_socket_error::WebSocketError;
use crate::web_socket_reader::{
    copy_from_arbitrary_nb_to_rb1, copy_from_compressed_nb_to_rb1, copy_from_compressed_rb1_to_rb2,
    manage_auto_reply, manage_op_code_of_continuation_frames,
    manage_op_code_of_first_continuation_frame, manage_op_code_of_first_final_frame,
    spec_close_payload_ok, spec_text_state_ok, lemma_text_state_prepend, unmask_nb,
};
use crate::web_socket_writer::{spec_appended_frame, write_frame_bytes};

verus! {

/// Frame payloads above this many bytes are refused unless the caller
/// raises the bound.
pub const DEFAULT_MAX_PAYLOAD_LEN: usize = 64 * 1024 * 1024;

/// The buffers of one connection: the partitioned network buffer and the
/// two reassembly buffers, created once and reused for every frame.
pub struct WebSocketBuffer {
    nb: PartitionedFilledBuffer,
    rb1: Vec<u8>,
    rb2: Vec<u8>,
}

impl WebSocketBuffer {
    /// Empty buffers: the partition indices and the capacity are zero and
    /// both reassembly buffers hold nothing.
    pub fn new() -> (r: Self)
        ensures
            r.wf(),
            r.nb().a() == 0 && r.nb().b() == 0 && r.nb().c() == 0 && r.nb().cap() == 0,
            r.rb1_view() == Seq::<u8>::empty(),
            r.rb2_view() == Seq::<u8>::empty(),
    {
        WebSocketBuffer { nb: PartitionedFilledBuffer::new(), rb1: Vec::new(), rb2: Vec::new() }
    }

    /// The network buffer partition is well formed.
    pub closed spec fn wf(&self) -> bool {
        self.nb.wf()
    }

    /// The partitioned network buffer.
    pub closed spec fn nb(&self) -> PartitionedFilledBuffer {
        self.nb
    }

    /// The first reassembly buffer.
    pub closed spec fn rb1_view(&self) -> Seq<u8> {
        self.rb1@
    }

    /// The second reassembly buffer.
    pub closed spec fn rb2_view(&self) -> Seq<u8> {
        self.rb2@
    }
}

/// A WebSocket connection over an abstract duplex stream: `IS_CLIENT`
/// selects the masking rules of the two endpoints.
pub struct WebSocket<NC, const IS_CLIENT: bool> {
    connection_state: ConnectionState,
    curr_iuc: Option<IncompleteUtf8Char>,
    curr_op_code: Option<OpCode>,
    curr_should_decompress: bool,
    max_payload_len: usize,
    nb: PartitionedFilledBuffer,
    nc: NC,
    no_masking: bool,
    out: Vec<u8>,
    rb1: Vec<u8>,
    rb2: Vec<u8>,
    rng: Xorshift64,
}

impl<NC: NegotiatedCompression, const IS_CLIENT: bool> WebSocket<NC, IS_CLIENT> {
    /// The connection state.
    pub closed spec fn state(&self) -> ConnectionState {
        self.connection_state
    }

    /// The partitioned network buffer.
    pub closed spec fn nb(&self) -> PartitionedFilledBuffer {
        self.nb
    }

    /// The bytes queued for sending.
    pub closed spec fn out_view(&self) -> Seq<u8> {
        self.out@
    }

    /// Whether the `no-masking` extension is in force.
    pub closed spec fn spec_no_masking(&self) -> bool {
        self.no_masking
    }

    /// The configured payload bound.
    pub closed spec fn spec_max_payload_len(&self) -> usize {
        self.max_payload_len
    }

    /// The fed bytes hold no complete frame: either not even a full
    /// header, or a header that announces more payload bytes than have
    /// arrived.
    pub open spec fn spec_needs_more_input(&self) -> bool {
        match crate::read_frame_info::spec_decode_header(
            self.nb().following_view(),
            IS_CLIENT,
            self.spec_no_masking(),
            self.nc_rsv1(),
            self.spec_max_payload_len() as u64,
        ) {
            Ok(decoded) => match decoded {
                None => true,
                Some(rfi) => self.nb().following_view().len() < rfi.header_len
                    + rfi.payload_len,
            },
            Err(e) => false,
        }
    }

    /// What decoding a frame header from the fed bytes yields.
    pub open spec fn spec_first_header(&self) -> Result<Option<ReadFrameInfo>, Error> {
        crate::read_frame_info::spec_decode_header(
            self.nb().following_view(),
            IS_CLIENT,
            self.spec_no_masking(),
            self.nc_rsv1(),
            self.spec_max_payload_len() as u64,
        )
    }

    /// The decoded first header, where one is complete.
    pub open spec fn spec_first_rfi(&self) -> ReadFrameInfo
        recommends
            self.spec_first_header() matches Ok(Some(rfi)),
    {
        match self.spec_first_header() {
            Ok(decoded) => match decoded {
                Some(rfi) => rfi,
                None => ReadFrameInfo {
                    fin: false,
                    rsv1: false,
                    rsv2: false,
                    rsv3: false,
                    op_code: OpCode::Continuation,
                    payload_len: 0,
                    mask: None,
                    header_len: 0,
                    should_decompress: false,
                },
            },
            Err(_) => ReadFrameInfo {
                fin: false,
                rsv1: false,
                rsv2: false,
                rsv3: false,
                op_code: OpCode::Continuation,
                payload_len: 0,
                mask: None,
                header_len: 0,
                should_decompress: false,
            },
        }
    }

    /// The fed bytes hold the whole first frame.
    pub open spec fn spec_first_frame_complete(&self) -> bool {
        self.spec_first_header() matches Ok(Some(rfi)) && self.nb().following_view().len()
            >= rfi.header_len + rfi.payload_len
    }

    /// The first frame's payload as the reader sees it: the bytes after
    /// its header, unmasked where masking is in force.
    pub open spec fn spec_first_payload(&self) -> Seq<u8> {
        let rfi = self.spec_first_rfi();
        crate::web_socket_reader::spec_nb_processed(
            self.nb().following_view().subrange(
                rfi.header_len as int,
                rfi.header_len + rfi.payload_len,
            ),
            IS_CLIENT,
            self.spec_no_masking(),
            rfi.mask,
        )
    }

    /// Whether a message is being assembled across fragments.
    pub closed spec fn spec_assembling(&self) -> bool {
        self.curr_op_code is Some
    }

    /// The data opcode of the message under assembly.
    pub closed spec fn spec_assembling_op(&self) -> OpCode
        recommends
            self.spec_assembling(),
    {
        match self.curr_op_code {
            Some(op) => op,
            None => OpCode::Continuation,
        }
    }

    /// Whether the message under assembly goes through the codec at its end.
    pub closed spec fn spec_assembling_compressed(&self) -> bool {
        self.curr_should_decompress
    }

    /// The second reassembly buffer.
    pub closed spec fn rb2_view(&self) -> Seq<u8> {
        self.rb2@
    }

    /// The first complete frame makes `read_frame` settle in its first
    /// step: surface a message, echo a close, or refuse the frame.
    pub open spec fn spec_first_settles(&self) -> bool {
        &&& self.spec_first_frame_complete()
        &&& !self.spec_first_rfi().should_decompress
        &&& if !self.spec_assembling() {
            (self.spec_first_rfi().fin && self.spec_first_rfi().op_code != OpCode::Ping
                && self.spec_first_rfi().op_code != OpCode::Pong) || (!self.spec_first_rfi().fin
                && self.spec_first_rfi().op_code == OpCode::Continuation)
        } else {
            self.spec_first_rfi().op_code != OpCode::Ping && !(self.spec_first_rfi().op_code
                == OpCode::Continuation && !self.spec_first_rfi().fin)
        }
    }

    /// The first complete frame is a plain ping that only queues a pong.
    pub open spec fn spec_first_is_ping(&self) -> bool {
        &&& self.spec_first_frame_complete()
        &&& !self.spec_first_rfi().should_decompress
        &&& self.spec_first_rfi().op_code == OpCode::Ping
    }

    /// The engine invariant: the buffer partition is well formed, a
    /// message under assembly is a data message, and for plain text the
    /// bytes gathered so far decompose into valid UTF-8 plus the pending
    /// bytes of one cut character.
    pub closed spec fn wf(&self) -> bool {
        &&& self.nb.wf()
        &&& match self.curr_op_code {
            Some(op) => {
                &&& (op == OpCode::Text || op == OpCode::Binary)
                &&& (op == OpCode::Text && !self.curr_should_decompress ==> spec_text_state_ok(
                    self.rb1@,
                    self.curr_iuc,
                ))
                &&& (!(op == OpCode::Text && !self.curr_should_decompress) ==> self.curr_iuc
                    is None)
            },
            None => true,
        }
    }

    /// A fresh connection in the `Open` state.
    pub fn new(
        nc: NC,
        rng: Xorshift64,
        max_payload_len: usize,
        no_masking: bool,
        wsb: WebSocketBuffer,
    ) -> (r: Self)
        requires
            wsb.wf(),
        ensures
            r.wf(),
            r.state() == ConnectionState::Open,
            r.out_view() == Seq::<u8>::empty(),
            r.spec_no_masking() == no_masking,
            !r.spec_assembling(),
            r.nb() == wsb.nb(),
            r.rb1_view() == wsb.rb1_view(),
            r.rb2_view() == wsb.rb2_view(),
            r.spec_max_payload_len() == max_payload_len,
            r.nc_rsv1() == nc.spec_rsv1(),
    {
        let WebSocketBuffer { nb, rb1, rb2 } = wsb;
        WebSocket {
            connection_state: ConnectionState::Open,
            curr_iuc: None,
            curr_op_code: None,
            curr_should_decompress: false,
            max_payload_len,
            nb,
            nc,
            no_masking,
            out: Vec::new(),
            rb1,
            rb2,
            rng,
        }
    }

    /// The connection state.
    pub fn connection_state(&self) -> (r: ConnectionState)
        ensures
            r == self.state(),
    {
        self.connection_state
    }

    /// Hands bytes read from the stream to the engine.
    pub fn feed(&mut self, bytes: &[u8]) -> (r: Result<(), Error>)
        requires
            old(self).wf(),
        ensures
            final(self).wf(),
            final(self).state() == old(self).state(),
            final(self).out_view() == old(self).out_view(),
            r is Err <==> old(self).nb().c() + bytes@.len() > usize::MAX,
            r is Err ==> (r == Err::<(), Error>(Error::UnexpectedBufferState) && *final(self)
                == *old(self)),
            r is Ok ==> final(self).nb().following_view() == old(self).nb().following_view()
                + bytes@,
    {
        self.nb.push_following(bytes)
    }

    /// Moves the queued outgoing bytes to the caller, which must write
    /// them to the stream.
    pub fn take_output(&mut self) -> (r: Vec<u8>)
        requires
            old(self).wf(),
        ensures
            final(self).wf(),
            final(self).state() == old(self).state(),
            r@ == old(self).out_view(),
            final(self).out_view() == Seq::<u8>::empty(),
    {
        let mut taken: Vec<u8> = Vec::new();
        core::mem::swap(&mut taken, &mut self.out);
        taken
    }

    /// Queues one frame for sending, masking it on a client and
    /// compressing data frames when a codec was negotiated. Sending a
    /// close frame closes the connection; nothing can be sent afterwards.
    pub fn write_frame(&mut self, frame: &Frame) -> (r: Result<(), Error>)
        requires
            old(self).wf(),
        ensures
            final(self).wf(),
            old(self).state() == ConnectionState::Closed ==> (r == Err::<(), Error>(
                Error::WebSocket(WebSocketError::ConnectionClosed),
            ) && final(self).out_view() == old(self).out_view()),
            old(self).out_view().is_prefix_of(final(self).out_view()),
            old(self).state() == ConnectionState::Open && !(frame.op_code == OpCode::Text
                || frame.op_code == OpCode::Binary || frame.op_code == OpCode::Continuation)
                ==> (r is Ok && spec_appended_frame(
                old(self).out_view(),
                final(self).out_view(),
                IS_CLIENT,
                old(self).spec_no_masking(),
                frame.fin,
                false,
                frame.op_code,
                frame.payload@,
            )),
            old(self).state() == ConnectionState::Open && (frame.op_code == OpCode::Text
                || frame.op_code == OpCode::Binary || frame.op_code == OpCode::Continuation)
                && !old(self).nc_rsv1() ==> (r is Ok && spec_appended_frame(
                old(self).out_view(),
                final(self).out_view(),
                IS_CLIENT,
                old(self).spec_no_masking(),
                frame.fin,
                false,
                frame.op_code,
                frame.payload@,
            )),
            old(self).state() == ConnectionState::Open && (frame.op_code == OpCode::Text
                || frame.op_code == OpCode::Binary || frame.op_code == OpCode::Continuation)
                && old(self).nc_rsv1() && r is Ok ==> exists|compressed: Seq<u8>|
                spec_appended_frame(
                    old(self).out_view(),
                    final(self).out_view(),
                    IS_CLIENT,
                    old(self).spec_no_masking(),
                    frame.fin,
                    true,
                    frame.op_code,
                    #[trigger] wire_payload(compressed),
                ),
            r is Ok ==> final(self).state() == (if frame.op_code == OpCode::Close || old(self).state() == ConnectionState::Closed {
                ConnectionState::Closed
            } else {
                old(self).state()
            }),
            r is Err ==> final(self).state() == old(self).state() && final(self).out_view()
                == old(self).out_view(),
            final(self).nc_rsv1() == old(self).nc_rsv1(),
            final(self).spec_no_masking() == old(self).spec_no_masking(),
    {
        if self.connection_state.is_closed() {
            return Err(Error::WebSocket(WebSocketError::ConnectionClosed));
        }
        let is_data = matches!(
            frame.op_code,
            OpCode::Text | OpCode::Binary | OpCode::Continuation
        );
        if is_data && self.nc.rsv1() {
            let mut compressed: Vec<u8> = Vec::new();
            let _ = self.nc.compress(frame.payload.as_slice(), &mut compressed)?;
            write_frame_bytes::<IS_CLIENT>(
                &mut self.out,
                frame.fin,
                true,
                frame.op_code,
                compressed.as_slice(),
                self.no_masking,
                &mut self.rng,
            );
            proof {
                assert(wire_payload(compressed@) == compressed@);
            }
        } else {
            write_frame_bytes::<IS_CLIENT>(
                &mut self.out,
                frame.fin,
                false,
                frame.op_code,
                frame.payload.as_slice(),
                self.no_masking,
                &mut self.rng,
            );
        }
        if matches!(frame.op_code, OpCode::Close) {
            self.connection_state = ConnectionState::Closed;
        }
        Ok(())
    }

    /// Whether the negotiated codec allows the RSV1 bit.
    pub closed spec fn nc_rsv1(&self) -> bool {
        self.nc.spec_rsv1()
    }

    /// Queues several frames for sending, in order.
    pub fn write_frames(&mut self, frames: &Vec<Frame>) -> (r: Result<(), Error>)
        requires
            old(self).wf(),
        ensures
            final(self).wf(),
            old(self).out_view().is_prefix_of(final(self).out_view()),
            r is Ok ==> spec_frames_queued(
                old(self).out_view(),
                final(self).out_view(),
                IS_CLIENT,
                old(self).spec_no_masking(),
                old(self).nc_rsv1(),
                frames@,
            ),
    {
        let mut i: usize = 0;
        proof {
            assert(frames@.take(0) =~= Seq::<Frame>::empty());
        }
        while i < frames.len()
            invariant
                old(self).wf(),
                self.wf(),
                i <= frames@.len(),
                self.nc_rsv1() == old(self).nc_rsv1(),
                self.spec_no_masking() == old(self).spec_no_masking(),
                old(self).out_view().is_prefix_of(self.out_view()),
                spec_frames_queued(
                    old(self).out_view(),
                    self.out_view(),
                    IS_CLIENT,
                    old(self).spec_no_masking(),
                    old(self).nc_rsv1(),
                    frames@.take(i as int),
                ),
            decreases frames@.len() - i,
        {
            let ghost mid_out = self.out_view();
            self.write_frame(&frames[i])?;
            proof {
                assert(old(self).out_view().is_prefix_of(self.out_view()));
                assert(spec_frame_queued(
                    mid_out,
                    self.out_view(),
                    IS_CLIENT,
                    old(self).spec_no_masking(),
                    old(self).nc_rsv1(),
                    frames@[i as int],
                ));
                lemma_frames_queued_snoc(
                    old(self).out_view(),
                    mid_out,
                    self.out_view(),
                    IS_CLIENT,
                    old(self).spec_no_masking(),
                    old(self).nc_rsv1(),
                    frames@,
                    i as int,
                );
            }
            i += 1;
        }
        proof {
            assert(frames@.take(frames@.len() as int) =~= frames@);
        }
        Ok(())
    }

    /// Reads one message or close frame out of the fed bytes.
    ///
    /// `Ok(None)` means the fed bytes do not hold a complete message yet:
    /// feed more and call again. Pings are answered and pongs are
    /// swallowed; what is surfaced is always a final text, binary or close
    /// frame. Every error leaves the connection closed.
    pub fn read_frame(&mut self) -> (r: Result<Option<(Frame, PayloadTy)>, Error>)
        requires
            old(self).wf(),
        ensures
            final(self).wf(),
            final(self).nb().wf(),
            old(self).out_view().is_prefix_of(final(self).out_view()),
            exists|replies: Seq<(OpCode, Seq<u8>)>|
                #[trigger] crate::web_socket_reader::spec_auto_replies_queued(
                    old(self).out_view(),
                    final(self).out_view(),
                    IS_CLIENT,
                    old(self).spec_no_masking(),
                    replies,
                ),
            old(self).state() == ConnectionState::Closed ==> r == Err::<
                Option<(Frame, PayloadTy)>,
                Error,
            >(Error::WebSocket(WebSocketError::ConnectionClosed)),
            r matches Ok(None) ==> final(self).spec_needs_more_input() && final(self).rb2_view()
                == Seq::<u8>::empty(),
            r matches Ok(Some(t)) ==> ({
                let f = t.0;
                &&& f.fin
                &&& (f.op_code == OpCode::Text || f.op_code == OpCode::Binary || f.op_code
                    == OpCode::Close)
                &&& (f.op_code == OpCode::Text ==> valid_utf8(f.payload@))
                &&& (f.op_code == OpCode::Close ==> spec_close_payload_ok(f.payload@) && final(self).state() == ConnectionState::Closed)
                &&& (t.1 == PayloadTy::Network ==> f.payload@ == final(self).nb().current_view())
                &&& (t.1 == PayloadTy::FirstReader ==> final(self).rb1_view() == Seq::<
                    u8,
                >::empty())
                &&& (t.1 != PayloadTy::SecondReader ==> final(self).rb2_view() == Seq::<
                    u8,
                >::empty())
            }),
            r is Err ==> final(self).state() == ConnectionState::Closed,
            old(self).state() == ConnectionState::Open ==> (old(self).spec_first_header() matches
            Err(e) ==> r == Err::<Option<(Frame, PayloadTy)>, Error>(e)),
            old(self).state() == ConnectionState::Open && !old(self).spec_assembling() && old(self).spec_first_frame_complete() && !old(self).spec_first_rfi().should_decompress && old(self).spec_first_rfi().op_code == OpCode::Continuation ==> r == Err::<
                Option<(Frame, PayloadTy)>,
                Error,
            >(Error::WebSocket(WebSocketError::UnexpectedMessageFrame)) && final(self).out_view()
                == old(self).out_view(),
            old(self).state() == ConnectionState::Open && !old(self).spec_assembling() && old(self).spec_first_frame_complete() && !old(self).spec_first_rfi().should_decompress && old(self).spec_first_rfi().fin && (old(self).spec_first_rfi().op_code == OpCode::Text || old(self).spec_first_rfi().op_code == OpCode::Binary) ==> ({
                let op = old(self).spec_first_rfi().op_code;
                let p = old(self).spec_first_payload();
                if op == OpCode::Text && !valid_utf8(p) {
                    r == Err::<Option<(Frame, PayloadTy)>, Error>(Error::InvalidUTF8)
                } else {
                    r matches Ok(Some(t)) && t.0.fin && t.0.op_code == op && !t.0.rsv1
                        && t.0.payload@ == p && t.1 == PayloadTy::Network && final(self).out_view()
                        == old(self).out_view() && final(self).state() == old(self).state()
                }
            }),
            old(self).state() == ConnectionState::Open && !old(self).spec_assembling() && old(self).spec_first_frame_complete() && !old(self).spec_first_rfi().should_decompress && old(self).spec_first_rfi().op_code == OpCode::Close ==> ({
                let p = old(self).spec_first_payload();
                if p.len() == 1 {
                    r == Err::<Option<(Frame, PayloadTy)>, Error>(
                        Error::WebSocket(WebSocketError::InvalidCloseFrame),
                    ) && final(self).out_view() == old(self).out_view()
                } else if p.len() >= 2 && !valid_utf8(p.subrange(2, p.len() as int)) {
                    r == Err::<Option<(Frame, PayloadTy)>, Error>(Error::InvalidUTF8)
                        && final(self).out_view() == old(self).out_view()
                } else if p.len() >= 2 && !(crate::op_code::spec_close_code_is_allowed(
                    crate::read_frame_info::spec_u16_be(p[0], p[1]) as u16,
                ) && p.len() <= 125) {
                    r == Err::<Option<(Frame, PayloadTy)>, Error>(
                        Error::WebSocket(WebSocketError::InvalidCloseFrame),
                    ) && spec_appended_frame(
                        old(self).out_view(),
                        final(self).out_view(),
                        IS_CLIENT,
                        old(self).spec_no_masking(),
                        true,
                        false,
                        OpCode::Close,
                        crate::web_socket_reader::spec_protocol_close_payload(p),
                    )
                } else {
                    r matches Ok(Some(t)) && t.0.op_code == OpCode::Close && t.0.payload@ == p
                        && t.1 == PayloadTy::Network && spec_appended_frame(
                        old(self).out_view(),
                        final(self).out_view(),
                        IS_CLIENT,
                        old(self).spec_no_masking(),
                        true,
                        false,
                        OpCode::Close,
                        p,
                    ) && final(self).state() == ConnectionState::Closed
                }
            }),
            old(self).state() == ConnectionState::Open && old(self).spec_first_is_ping()
                ==> exists|mid: Seq<u8>|
                #[trigger] spec_appended_frame(
                    old(self).out_view(),
                    mid,
                    IS_CLIENT,
                    old(self).spec_no_masking(),
                    true,
                    false,
                    OpCode::Pong,
                    old(self).spec_first_payload(),
                ) && mid.is_prefix_of(final(self).out_view()),
            old(self).state() == ConnectionState::Open && old(self).spec_assembling() && old(self).spec_first_frame_complete() && !old(self).spec_first_rfi().should_decompress && (old(self).spec_first_rfi().op_code == OpCode::Text || old(self).spec_first_rfi().op_code
                == OpCode::Binary || old(self).spec_first_rfi().op_code == OpCode::Pong) ==> r
                == Err::<Option<(Frame, PayloadTy)>, Error>(
                Error::WebSocket(WebSocketError::UnexpectedMessageFrame),
            ) && final(self).out_view() == old(self).out_view(),
            old(self).state() == ConnectionState::Open && old(self).spec_assembling() && !old(self).spec_assembling_compressed() && old(self).spec_first_frame_complete() && !old(self).spec_first_rfi().should_decompress && old(self).spec_first_rfi().op_code
                == OpCode::Continuation && old(self).spec_first_rfi().fin ==> ({
                let m = old(self).rb1_view() + old(self).spec_first_payload();
                let op = old(self).spec_assembling_op();
                if op == OpCode::Text && !valid_utf8(m) {
                    r == Err::<Option<(Frame, PayloadTy)>, Error>(Error::InvalidUTF8)
                } else {
                    r matches Ok(Some(t)) && t.0.fin && t.0.op_code == op && !t.0.rsv1
                        && t.0.payload@ == m && t.1 == PayloadTy::FirstReader && final(self).out_view() == old(self).out_view() && final(self).state() == old(self).state()
                }
            }),
    {
        if self.connection_state.is_closed() {
            proof {
                assert(crate::web_socket_reader::spec_auto_replies_queued(
                    old(self).out_view(),
                    self.out_view(),
                    IS_CLIENT,
                    old(self).spec_no_masking(),
                    Seq::<(OpCode, Seq<u8>)>::empty(),
                ));
            }
            return Err(Error::WebSocket(WebSocketError::ConnectionClosed));
        }
        self.rb2.clear();
        let ghost snap = *self;
        let r = self.read_frame_inner();
        let ghost rs_replies = choose|rs: Seq<(OpCode, Seq<u8>)>|
            #[trigger] crate::web_socket_reader::spec_auto_replies_queued(
                snap.out_view(),
                self.out_view(),
                IS_CLIENT,
                snap.spec_no_masking(),
                rs,
            );
        proof {
            assert(crate::web_socket_reader::spec_auto_replies_queued(
                old(self).out_view(),
                self.out_view(),
                IS_CLIENT,
                old(self).spec_no_masking(),
                rs_replies,
            ));
            if snap.spec_first_is_ping() {
                let mid = choose|mid: Seq<u8>|
                    #[trigger] spec_appended_frame(
                        snap.out_view(),
                        mid,
                        IS_CLIENT,
                        snap.spec_no_masking(),
                        true,
                        false,
                        OpCode::Pong,
                        snap.spec_first_payload(),
                    ) && mid.is_prefix_of(self.out_view());
                assert(spec_appended_frame(
                    old(self).out_view(),
                    mid,
                    IS_CLIENT,
                    old(self).spec_no_masking(),
                    true,
                    false,
                    OpCode::Pong,
                    old(self).spec_first_payload(),
                ) && mid.is_prefix_of(self.out_view()));
            }
        }
        if r.is_err() {
            self.connection_state = ConnectionState::Closed;
        }
        proof {
            assert(crate::web_socket_reader::spec_auto_replies_queued(
                old(self).out_view(),
                self.out_view(),
                IS_CLIENT,
                old(self).spec_no_masking(),
                rs_replies,
            ));
        }
        r
    }

    /// Decodes the next frame header and pulls its payload into the
    /// current part of the network buffer; `Ok(None)` asks for more bytes.
    #[verifier::rlimit(60)]
    fn try_fetch_frame(&mut self) -> (r: Result<Option<ReadFrameInfo>, Error>)
        requires
            old(self).wf(),
        ensures
            final(self).wf(),
            final(self).state() == old(self).state(),
            final(self).out_view() == old(self).out_view(),
            final(self).curr_state_eq(*old(self)),
            final(self).spec_no_masking() == old(self).spec_no_masking(),
            final(self).spec_max_payload_len() == old(self).spec_max_payload_len(),
            final(self).nc_rsv1() == old(self).nc_rsv1(),
            r matches Ok(Some(rfi)) ==> ({
                &&& final(self).nb().current_view().len() == rfi.payload_len
                &&& (crate::op_code::spec_is_control(rfi.op_code) ==> rfi.fin
                    && rfi.payload_len <= 125)
                &&& (!IS_CLIENT && !old(self).spec_no_masking() ==> rfi.mask is Some)
                &&& final(self).nb().following_view().len() < old(self).nb().following_view().len()
            }),
            r matches Ok(None) ==> final(self).nb().following_view() == old(self).nb().following_view() && final(self).rb1_view() == old(self).rb1_view()
                && final(self).spec_needs_more_input(),
            r is Ok ==> final(self).rb1_view() == old(self).rb1_view(),
            old(self).spec_first_header() matches Err(e) ==> r == Err::<
                Option<ReadFrameInfo>,
                Error,
            >(e),
            r matches Ok(Some(rfi)) ==> old(self).spec_first_frame_complete() && rfi == old(self).spec_first_rfi(),
            old(self).spec_first_frame_complete() ==> ({
                let rfi = old(self).spec_first_rfi();
                &&& r == Ok::<Option<ReadFrameInfo>, Error>(Some(rfi))
                &&& final(self).nb().current_view() == old(self).nb().following_view().subrange(
                    rfi.header_len as int,
                    rfi.header_len + rfi.payload_len,
                )
                &&& final(self).nb().following_view() == old(self).nb().following_view().skip(
                    rfi.header_len + rfi.payload_len,
                )
            }),
            final(self).rb2_view() == old(self).rb2_view(),
    {
        let ghost base = old(self).nb().following_view();
        self.nb.clear_if_following_is_empty();
        let base_len = self.nb.following_len();
        proof {
            assert(base.len() == base_len);
        }
        let decoded = ReadFrameInfo::decode(
            self.nb.following(),
            IS_CLIENT,
            self.no_masking,
            self.nc.rsv1(),
            self.max_payload_len as u64,
        )?;
        let Some(rfi) = decoded else { return Ok(None) };
        proof {
            crate::read_frame_info::lemma_decode_header_bounds(
                base,
                IS_CLIENT,
                self.no_masking,
                self.nc.spec_rsv1(),
                self.max_payload_len as u64,
            );
        }
        let header_len = rfi.header_len as usize;
        let Some(payload_len_usize) = crate::num::Usize::from_u64(rfi.payload_len) else {
            proof {
                assert(rfi.payload_len <= self.max_payload_len as u64);
                assert(false);
            }
            return Err(Error::UnexpectedBufferState);
        };
        let payload_len = payload_len_usize.into_usize();
        let Some(frame_len) = header_len.checked_add(payload_len) else {
            proof {
                assert(base.len() == base_len <= usize::MAX);
                assert(!old(self).spec_first_frame_complete());
            }
            return Err(Error::UnexpectedBufferState);
        };
        if self.nb.following_len() < frame_len {
            return Ok(None);
        }
        let b = self.nb.current_end_idx();
        let c = self.nb.following_end_idx();
        let new_a = b + header_len;
        let new_b = new_a + payload_len;
        self.nb.set_indices(new_a, new_b, c)?;
        proof {
            assert(self.nb.current_view().len() == payload_len);
            assert(self.nb.current_view() =~= base.subrange(
                header_len as int,
                header_len + payload_len,
            ));
            assert(self.nb.following_view() =~= base.skip(header_len + payload_len));
        }
        Ok(Some(rfi))
    }

    /// The fragmented-message bookkeeping of two engine values agrees.
    pub closed spec fn curr_state_eq(&self, other: Self) -> bool {
        &&& self.curr_op_code == other.curr_op_code
        &&& self.curr_iuc == other.curr_iuc
        &&& self.curr_should_decompress == other.curr_should_decompress
    }

    /// The first reassembly buffer.
    pub closed spec fn rb1_view(&self) -> Seq<u8> {
        self.rb1@
    }

    /// The frame-assembly loop behind `read_frame`.
    #[verifier::rlimit(100)]
    fn read_frame_inner(&mut self) -> (r: Result<Option<(Frame, PayloadTy)>, Error>)
        requires
            old(self).wf(),
        ensures
            final(self).wf(),
            old(self).out_view().is_prefix_of(final(self).out_view()),
            exists|replies: Seq<(OpCode, Seq<u8>)>|
                #[trigger] crate::web_socket_reader::spec_auto_replies_queued(
                    old(self).out_view(),
                    final(self).out_view(),
                    IS_CLIENT,
                    old(self).spec_no_masking(),
                    replies,
                ),
            r matches Ok(None) ==> final(self).spec_needs_more_input() && final(self).rb2_view()
                == old(self).rb2_view(),
            r matches Ok(Some(t)) ==> ({
                let f = t.0;
                &&& f.fin
                &&& (f.op_code == OpCode::Text || f.op_code == OpCode::Binary || f.op_code
                    == OpCode::Close)
                &&& (f.op_code == OpCode::Text ==> valid_utf8(f.payload@))
                &&& (f.op_code == OpCode::Close ==> spec_close_payload_ok(f.payload@) && final(self).state() == ConnectionState::Closed)
                &&& (t.1 == PayloadTy::Network ==> f.payload@ == final(self).nb().current_view())
                &&& (t.1 == PayloadTy::FirstReader ==> final(self).rb1_view() == Seq::<
                    u8,
                >::empty())
                &&& (t.1 != PayloadTy::SecondReader ==> final(self).rb2_view() == old(self).rb2_view())
            }),
            old(self).spec_first_header() matches Err(e) ==> r == Err::<
                Option<(Frame, PayloadTy)>,
                Error,
            >(e),
            !old(self).spec_assembling() && old(self).spec_first_frame_complete() && !old(self).spec_first_rfi().should_decompress && old(self).spec_first_rfi().op_code
                == OpCode::Continuation ==> r == Err::<Option<(Frame, PayloadTy)>, Error>(
                Error::WebSocket(WebSocketError::UnexpectedMessageFrame),
            ) && final(self).out_view() == old(self).out_view(),
            !old(self).spec_assembling() && old(self).spec_first_frame_complete() && !old(self).spec_first_rfi().should_decompress && old(self).spec_first_rfi().fin && (old(self).spec_first_rfi().op_code == OpCode::Text || old(self).spec_first_rfi().op_code
                == OpCode::Binary) ==> ({
                let op = old(self).spec_first_rfi().op_code;
                let p = old(self).spec_first_payload();
                if op == OpCode::Text && !valid_utf8(p) {
                    r == Err::<Option<(Frame, PayloadTy)>, Error>(Error::InvalidUTF8)
                } else {
                    r matches Ok(Some(t)) && t.0.fin && t.0.op_code == op && !t.0.rsv1
                        && t.0.payload@ == p && t.1 == PayloadTy::Network && final(self).out_view()
                        == old(self).out_view() && final(self).state() == old(self).state()
                }
            }),
            !old(self).spec_assembling() && old(self).spec_first_frame_complete() && !old(self).spec_first_rfi().should_decompress && old(self).spec_first_rfi().op_code
                == OpCode::Close && old(self).state() == ConnectionState::Open ==> ({
                let p = old(self).spec_first_payload();
                if p.len() == 1 {
                    r == Err::<Option<(Frame, PayloadTy)>, Error>(
                        Error::WebSocket(WebSocketError::InvalidCloseFrame),
                    ) && final(self).out_view() == old(self).out_view()
                } else if p.len() >= 2 && !valid_utf8(p.subrange(2, p.len() as int)) {
                    r == Err::<Option<(Frame, PayloadTy)>, Error>(Error::InvalidUTF8) && final(self).out_view() == old(self).out_view()
                } else if p.len() >= 2 && !(crate::op_code::spec_close_code_is_allowed(
                    crate::read_frame_info::spec_u16_be(p[0], p[1]) as u16,
                ) && p.len() <= 125) {
                    r == Err::<Option<(Frame, PayloadTy)>, Error>(
                        Error::WebSocket(WebSocketError::InvalidCloseFrame),
                    ) && spec_appended_frame(
                        old(self).out_view(),
                        final(self).out_view(),
                        IS_CLIENT,
                        old(self).spec_no_masking(),
                        true,
                        false,
                        OpCode::Close,
                        crate::web_socket_reader::spec_protocol_close_payload(p),
                    )
                } else {
                    r matches Ok(Some(t)) && t.0.op_code == OpCode::Close && t.0.payload@ == p
                        && t.1 == PayloadTy::Network && spec_appended_frame(
                        old(self).out_view(),
                        final(self).out_view(),
                        IS_CLIENT,
                        old(self).spec_no_masking(),
                        true,
                        false,
                        OpCode::Close,
                        p,
                    ) && final(self).state() == ConnectionState::Closed
                }
            }),
            old(self).spec_first_is_ping() ==> exists|mid: Seq<u8>|
                #[trigger] spec_appended_frame(
                    old(self).out_view(),
                    mid,
                    IS_CLIENT,
                    old(self).spec_no_masking(),
                    true,
                    false,
                    OpCode::Pong,
                    old(self).spec_first_payload(),
                ) && mid.is_prefix_of(final(self).out_view()),
            old(self).spec_assembling() && old(self).spec_first_frame_complete() && !old(self).spec_first_rfi().should_decompress && (old(self).spec_first_rfi().op_code
                == OpCode::Text || old(self).spec_first_rfi().op_code == OpCode::Binary || old(self).spec_first_rfi().op_code == OpCode::Pong) ==> r == Err::<
                Option<(Frame, PayloadTy)>,
                Error,
            >(Error::WebSocket(WebSocketError::UnexpectedMessageFrame)) && final(self).out_view()
                == old(self).out_view(),
            old(self).spec_assembling() && old(self).spec_first_frame_complete() && !old(self).spec_first_rfi().should_decompress && old(self).spec_first_rfi().op_code
                == OpCode::Close && old(self).state() == ConnectionState::Open && ({
                let p = old(self).spec_first_payload();
                p.len() != 1 && (p.len() >= 2 ==> valid_utf8(p.subrange(2, p.len() as int))
                    && crate::op_code::spec_close_code_is_allowed(
                    crate::read_frame_info::spec_u16_be(p[0], p[1]) as u16,
                ) && p.len() <= 125)
            }) ==> r == Err::<Option<(Frame, PayloadTy)>, Error>(
                Error::WebSocket(WebSocketError::UnexpectedMessageFrame),
            ) && spec_appended_frame(
                old(self).out_view(),
                final(self).out_view(),
                IS_CLIENT,
                old(self).spec_no_masking(),
                true,
                false,
                OpCode::Close,
                old(self).spec_first_payload(),
            ) && final(self).state() == ConnectionState::Closed,
            old(self).spec_assembling() && !old(self).spec_assembling_compressed() && old(self).spec_first_frame_complete() && !old(self).spec_first_rfi().should_decompress && old(self).spec_first_rfi().op_code == OpCode::Continuation && old(self).spec_first_rfi().fin
                ==> ({
                let m = old(self).rb1_view() + old(self).spec_first_payload();
                let op = old(self).spec_assembling_op();
                if op == OpCode::Text && !valid_utf8(m) {
                    r == Err::<Option<(Frame, PayloadTy)>, Error>(Error::InvalidUTF8)
                } else {
                    r matches Ok(Some(t)) && t.0.fin && t.0.op_code == op && !t.0.rsv1
                        && t.0.payload@ == m && t.1 == PayloadTy::FirstReader && final(self).out_view() == old(self).out_view() && final(self).state() == old(self).state()
                }
            }),
    {
        let ghost entry_out = self.out_view();
        // whether the loop is still in its first pass, before any frame of
        // this call was consumed
        let ghost mut first: bool = true;
        proof {
            assert(entry_out.is_prefix_of(entry_out)) by {
                assert(entry_out.subrange(0, entry_out.len() as int) =~= entry_out);
            }
            assert(crate::web_socket_reader::spec_auto_replies_queued(
                entry_out,
                entry_out,
                IS_CLIENT,
                old(self).spec_no_masking(),
                Seq::<(OpCode, Seq<u8>)>::empty(),
            ));
        }
        loop
            invariant
                self.wf(),
                entry_out == old(self).out_view(),
                entry_out.is_prefix_of(self.out_view()),
                self.spec_no_masking() == old(self).spec_no_masking(),
                exists|replies: Seq<(OpCode, Seq<u8>)>|
                    #[trigger] crate::web_socket_reader::spec_auto_replies_queued(
                        entry_out,
                        self.out_view(),
                        IS_CLIENT,
                        old(self).spec_no_masking(),
                        replies,
                    ),
                first ==> *self == *old(self),
                !first ==> !old(self).spec_first_settles() && !(old(self).spec_first_header()
                    is Err),
                !first && old(self).spec_first_is_ping() ==> exists|mid: Seq<u8>|
                    #[trigger] spec_appended_frame(
                        old(self).out_view(),
                        mid,
                        IS_CLIENT,
                        old(self).spec_no_masking(),
                        true,
                        false,
                        OpCode::Pong,
                        old(self).spec_first_payload(),
                    ) && mid.is_prefix_of(self.out_view()),
                self.rb2_view() == old(self).rb2_view(),
            decreases self.nb().following_view().len(),
        {
            let ghost iter_out = self.out_view();
            // the auto-replies queued so far, extended at every reply site
            let ghost mut chain = choose|rs: Seq<(OpCode, Seq<u8>)>|
                #[trigger] crate::web_socket_reader::spec_auto_replies_queued(
                    entry_out,
                    self.out_view(),
                    IS_CLIENT,
                    old(self).spec_no_masking(),
                    rs,
                );
            proof {
                assert(crate::web_socket_reader::spec_auto_replies_queued(
                    entry_out,
                    iter_out,
                    IS_CLIENT,
                    old(self).spec_no_masking(),
                    chain,
                ));
            }
            let rfi = match self.try_fetch_frame() {
                Ok(Some(rfi)) => rfi,
                Ok(None) => {
                    return Ok(None);
                },
                Err(e) => {
                    return Err(e);
                },
            };
            let is_assembling = self.curr_op_code.is_some();
            if !is_assembling {
                if rfi.fin {
                    if rfi.should_decompress {
                        self.rb1.clear();
                        if let Err(e) = copy_from_compressed_nb_to_rb1::<NC, IS_CLIENT>(
                            &mut self.nc,
                            &mut self.nb,
                            self.no_masking,
                            &mut self.rb1,
                            &rfi,
                        ) {
                            proof {
                                assert(crate::web_socket_reader::spec_auto_replies_queued(
                                    entry_out,
                                    self.out_view(),
                                    IS_CLIENT,
                                    old(self).spec_no_masking(),
                                    chain,
                                ));
                            }
                            return Err(e);
                        }
                        let proceed = match manage_auto_reply::<IS_CLIENT>(
                            &mut self.connection_state,
                            self.no_masking,
                            rfi.op_code,
                            self.rb1.as_slice(),
                            &mut self.rng,
                            &mut self.out,
                        ) {
                            Ok(p) => p,
                            Err(e) => {
                                proof {
                                    lemma_prefix_trans(entry_out, iter_out, self.out_view());
                                    let rs = choose|rs: Seq<(OpCode, Seq<u8>)>|
                                        #[trigger] crate::web_socket_reader::spec_auto_replies_queued(
                                            entry_out,
                                            iter_out,
                                            IS_CLIENT,
                                            old(self).spec_no_masking(),
                                            rs,
                                        );
                                    if self.out_view() != iter_out {
                                        let reply = choose|reply: (OpCode, Seq<u8>)|
                                            #[trigger] crate::web_socket_reader::spec_auto_reply_step(
                                                iter_out,
                                                self.out_view(),
                                                IS_CLIENT,
                                                old(self).spec_no_masking(),
                                                reply,
                                            );
                                        crate::web_socket_reader::lemma_auto_replies_snoc(
                                            entry_out,
                                            iter_out,
                                            self.out_view(),
                                            IS_CLIENT,
                                            old(self).spec_no_masking(),
                                            rs,
                                            reply,
                                        );
                                        chain = rs.push(reply);
                                    } else {
                                        chain = rs;
                                    }
                                    assert(crate::web_socket_reader::spec_auto_replies_queued(
                                        entry_out,
                                        self.out_view(),
                                        IS_CLIENT,
                                        old(self).spec_no_masking(),
                                        chain,
                                    ));
                                }
                                return Err(e);
                            },
                        };
                        proof {
                                lemma_prefix_trans(entry_out, iter_out, self.out_view());
                                let rs = choose|rs: Seq<(OpCode, Seq<u8>)>|
                                    #[trigger] crate::web_socket_reader::spec_auto_replies_queued(
                                        entry_out,
                                        iter_out,
                                        IS_CLIENT,
                                        old(self).spec_no_masking(),
                                        rs,
                                    );
                                if self.out_view() != iter_out {
                                    let reply = choose|reply: (OpCode, Seq<u8>)|
                                        #[trigger] crate::web_socket_reader::spec_auto_reply_step(
                                            iter_out,
                                            self.out_view(),
                                            IS_CLIENT,
                                            old(self).spec_no_masking(),
                                            reply,
                                        );
                                    crate::web_socket_reader::lemma_auto_replies_snoc(
                                        entry_out,
                                        iter_out,
                                        self.out_view(),
                                        IS_CLIENT,
                                        old(self).spec_no_masking(),
                                        rs,
                                        reply,
                                    );
                                    chain = rs.push(reply);
                                } else {
                                    chain = rs;
                                }
                                assert(crate::web_socket_reader::spec_auto_replies_queued(
                                    entry_out,
                                    self.out_view(),
                                    IS_CLIENT,
                                    old(self).spec_no_masking(),
                                    chain,
                                ));
                            }
                        if !proceed || matches!(rfi.op_code, OpCode::Pong) {
                            proof {
                                first = false;
                            }
                            continue ;
                        }
                        if let Err(e) = manage_op_code_of_first_final_frame(
                            rfi.op_code,
                            self.rb1.as_slice(),
                        ) {
                            proof {
                                assert(crate::web_socket_reader::spec_auto_replies_queued(
                                    entry_out,
                                    self.out_view(),
                                    IS_CLIENT,
                                    old(self).spec_no_masking(),
                                    chain,
                                ));
                            }
                            return Err(e);
                        }
                        let mut payload: Vec<u8> = Vec::new();
                        core::mem::swap(&mut payload, &mut self.rb1);
                        proof {
                            assert(crate::web_socket_reader::spec_auto_replies_queued(
                                entry_out,
                                self.out_view(),
                                IS_CLIENT,
                                old(self).spec_no_masking(),
                                chain,
                            ));
                        }
                        return Ok(
                            Some(
                                (Frame::new(true, rfi.op_code, payload, false),
                                PayloadTy::FirstReader),
                            ),
                        );
                    } else {
                        if let Err(e) = unmask_nb::<IS_CLIENT>(
                            &mut self.nb,
                            self.no_masking,
                            &rfi,
                        ) {
                            proof {
                                assert(crate::web_socket_reader::spec_auto_replies_queued(
                                    entry_out,
                                    self.out_view(),
                                    IS_CLIENT,
                                    old(self).spec_no_masking(),
                                    chain,
                                ));
                            }
                            return Err(e);
                        }
                        proof {
                            if first {
                                assert(self.nb().current_view() == old(self).spec_first_payload());
                            }
                        }
                        let proceed = match manage_auto_reply::<IS_CLIENT>(
                            &mut self.connection_state,
                            self.no_masking,
                            rfi.op_code,
                            self.nb.current(),
                            &mut self.rng,
                            &mut self.out,
                        ) {
                            Ok(p) => p,
                            Err(e) => {
                                proof {
                                    lemma_prefix_trans(entry_out, iter_out, self.out_view());
                                    let rs = choose|rs: Seq<(OpCode, Seq<u8>)>|
                                        #[trigger] crate::web_socket_reader::spec_auto_replies_queued(
                                            entry_out,
                                            iter_out,
                                            IS_CLIENT,
                                            old(self).spec_no_masking(),
                                            rs,
                                        );
                                    if self.out_view() != iter_out {
                                        let reply = choose|reply: (OpCode, Seq<u8>)|
                                            #[trigger] crate::web_socket_reader::spec_auto_reply_step(
                                                iter_out,
                                                self.out_view(),
                                                IS_CLIENT,
                                                old(self).spec_no_masking(),
                                                reply,
                                            );
                                        crate::web_socket_reader::lemma_auto_replies_snoc(
                                            entry_out,
                                            iter_out,
                                            self.out_view(),
                                            IS_CLIENT,
                                            old(self).spec_no_masking(),
                                            rs,
                                            reply,
                                        );
                                        chain = rs.push(reply);
                                    } else {
                                        chain = rs;
                                    }
                                    assert(crate::web_socket_reader::spec_auto_replies_queued(
                                        entry_out,
                                        self.out_view(),
                                        IS_CLIENT,
                                        old(self).spec_no_masking(),
                                        chain,
                                    ));
                                }
                                return Err(e);
                            },
                        };
                        proof {
                                lemma_prefix_trans(entry_out, iter_out, self.out_view());
                                let rs = choose|rs: Seq<(OpCode, Seq<u8>)>|
                                    #[trigger] crate::web_socket_reader::spec_auto_replies_queued(
                                        entry_out,
                                        iter_out,
                                        IS_CLIENT,
                                        old(self).spec_no_masking(),
                                        rs,
                                    );
                                if self.out_view() != iter_out {
                                    let reply = choose|reply: (OpCode, Seq<u8>)|
                                        #[trigger] crate::web_socket_reader::spec_auto_reply_step(
                                            iter_out,
                                            self.out_view(),
                                            IS_CLIENT,
                                            old(self).spec_no_masking(),
                                            reply,
                                        );
                                    crate::web_socket_reader::lemma_auto_replies_snoc(
                                        entry_out,
                                        iter_out,
                                        self.out_view(),
                                        IS_CLIENT,
                                        old(self).spec_no_masking(),
                                        rs,
                                        reply,
                                    );
                                    chain = rs.push(reply);
                                } else {
                                    chain = rs;
                                }
                                assert(crate::web_socket_reader::spec_auto_replies_queued(
                                    entry_out,
                                    self.out_view(),
                                    IS_CLIENT,
                                    old(self).spec_no_masking(),
                                    chain,
                                ));
                            }
                        if !proceed || matches!(rfi.op_code, OpCode::Pong) {
                            proof {
                                first = false;
                            }
                            continue ;
                        }
                        if let Err(e) = manage_op_code_of_first_final_frame(
                            rfi.op_code,
                            self.nb.current(),
                        ) {
                            proof {
                                assert(crate::web_socket_reader::spec_auto_replies_queued(
                                    entry_out,
                                    self.out_view(),
                                    IS_CLIENT,
                                    old(self).spec_no_masking(),
                                    chain,
                                ));
                            }
                            return Err(e);
                        }
                        let payload = vstd::slice::slice_to_vec(self.nb.current());
                        return Ok(
                            Some(
                                (Frame::new(true, rfi.op_code, payload, false), PayloadTy::Network),
                            ),
                        );
                    }
                } else {
                    self.rb1.clear();
                    if let Err(e) = copy_from_arbitrary_nb_to_rb1::<IS_CLIENT>(
                        &mut self.nb,
                        self.no_masking,
                        &mut self.rb1,
                        &rfi,
                    ) {
                        proof {
                            assert(crate::web_socket_reader::spec_auto_replies_queued(
                                entry_out,
                                self.out_view(),
                                IS_CLIENT,
                                old(self).spec_no_masking(),
                                chain,
                            ));
                        }
                        return Err(e);
                    }
                    let validate_text = !rfi.should_decompress;
                    let iuc = match manage_op_code_of_first_continuation_frame(
                        rfi.op_code,
                        self.rb1.as_slice(),
                        validate_text,
                    ) {
                        Ok(iuc) => iuc,
                        Err(e) => {
                            proof {
                                assert(crate::web_socket_reader::spec_auto_replies_queued(
                                    entry_out,
                                    self.out_view(),
                                    IS_CLIENT,
                                    old(self).spec_no_masking(),
                                    chain,
                                ));
                            }
                            return Err(e);
                        },
                    };
                    self.curr_op_code = Some(rfi.op_code);
                    self.curr_should_decompress = rfi.should_decompress;
                    self.curr_iuc = iuc;
                    proof {
                        first = false;
                        assert(crate::web_socket_reader::spec_auto_replies_queued(
                            entry_out,
                            self.out_view(),
                            IS_CLIENT,
                            old(self).spec_no_masking(),
                            chain,
                        ));
                    }
                }
            } else {
                let first_op_code = match self.curr_op_code {
                    Some(op) => op,
                    None => {
                        return Err(Error::UnexpectedBufferState);
                    },
                };
                if rfi.op_code.is_control() {
                    if let Err(e) = unmask_nb::<IS_CLIENT>(&mut self.nb, self.no_masking, &rfi) {
                        proof {
                            assert(crate::web_socket_reader::spec_auto_replies_queued(
                                entry_out,
                                self.out_view(),
                                IS_CLIENT,
                                old(self).spec_no_masking(),
                                chain,
                            ));
                        }
                        return Err(e);
                    }
                    proof {
                        if first {
                            assert(self.nb().current_view() == old(self).spec_first_payload());
                        }
                    }
                    let proceed = match manage_auto_reply::<IS_CLIENT>(
                        &mut self.connection_state,
                        self.no_masking,
                        rfi.op_code,
                        self.nb.current(),
                        &mut self.rng,
                        &mut self.out,
                    ) {
                        Ok(p) => p,
                        Err(e) => {
                            proof {
                                lemma_prefix_trans(entry_out, iter_out, self.out_view());
                                let rs = choose|rs: Seq<(OpCode, Seq<u8>)>|
                                    #[trigger] crate::web_socket_reader::spec_auto_replies_queued(
                                        entry_out,
                                        iter_out,
                                        IS_CLIENT,
                                        old(self).spec_no_masking(),
                                        rs,
                                    );
                                if self.out_view() != iter_out {
                                    let reply = choose|reply: (OpCode, Seq<u8>)|
                                        #[trigger] crate::web_socket_reader::spec_auto_reply_step(
                                            iter_out,
                                            self.out_view(),
                                            IS_CLIENT,
                                            old(self).spec_no_masking(),
                                            reply,
                                        );
                                    crate::web_socket_reader::lemma_auto_replies_snoc(
                                        entry_out,
                                        iter_out,
                                        self.out_view(),
                                        IS_CLIENT,
                                        old(self).spec_no_masking(),
                                        rs,
                                        reply,
                                    );
                                    chain = rs.push(reply);
                                } else {
                                    chain = rs;
                                }
                                assert(crate::web_socket_reader::spec_auto_replies_queued(
                                    entry_out,
                                    self.out_view(),
                                    IS_CLIENT,
                                    old(self).spec_no_masking(),
                                    chain,
                                ));
                            }
                            return Err(e);
                        },
                    };
                    proof {
                            lemma_prefix_trans(entry_out, iter_out, self.out_view());
                            let rs = choose|rs: Seq<(OpCode, Seq<u8>)>|
                                #[trigger] crate::web_socket_reader::spec_auto_replies_queued(
                                    entry_out,
                                    iter_out,
                                    IS_CLIENT,
                                    old(self).spec_no_masking(),
                                    rs,
                                );
                            if self.out_view() != iter_out {
                                let reply = choose|reply: (OpCode, Seq<u8>)|
                                    #[trigger] crate::web_socket_reader::spec_auto_reply_step(
                                        iter_out,
                                        self.out_view(),
                                        IS_CLIENT,
                                        old(self).spec_no_masking(),
                                        reply,
                                    );
                                crate::web_socket_reader::lemma_auto_replies_snoc(
                                    entry_out,
                                    iter_out,
                                    self.out_view(),
                                    IS_CLIENT,
                                    old(self).spec_no_masking(),
                                    rs,
                                    reply,
                                );
                                chain = rs.push(reply);
                            } else {
                                chain = rs;
                            }
                            assert(crate::web_socket_reader::spec_auto_replies_queued(
                                entry_out,
                                self.out_view(),
                                IS_CLIENT,
                                old(self).spec_no_masking(),
                                chain,
                            ));
                        }
                    if !proceed {
                        proof {
                            first = false;
                        }
                        continue ;
                    }
                    return Err(Error::WebSocket(WebSocketError::UnexpectedMessageFrame));
                }
                let ghost rb1_before = self.rb1@;
                let ghost iuc_before = self.curr_iuc;
                let begin = self.rb1.len();
                if let Err(e) = copy_from_arbitrary_nb_to_rb1::<IS_CLIENT>(
                    &mut self.nb,
                    self.no_masking,
                    &mut self.rb1,
                    &rfi,
                ) {
                    proof {
                        assert(crate::web_socket_reader::spec_auto_replies_queued(
                            entry_out,
                            self.out_view(),
                            IS_CLIENT,
                            old(self).spec_no_masking(),
                            chain,
                        ));
                    }
                    return Err(e);
                }
                let payload = vstd::slice::slice_subrange(
                    self.rb1.as_slice(),
                    begin,
                    self.rb1.len(),
                );
                let validate_text = !self.curr_should_decompress;
                let done = match manage_op_code_of_continuation_frames(
                    rfi.fin,
                    first_op_code,
                    &mut self.curr_iuc,
                    rfi.op_code,
                    payload,
                    validate_text,
                ) {
                    Ok(done) => done,
                    Err(e) => {
                        proof {
                            if first_op_code == OpCode::Text && validate_text && rfi.op_code
                                == OpCode::Continuation {
                                let pending = match iuc_before {
                                    Some(u) => u@,
                                    None => Seq::<u8>::empty(),
                                };
                                let combined = pending + payload@;
                                let v = match iuc_before {
                                    Some(u) => rb1_before.subrange(
                                        0,
                                        rb1_before.len() - u@.len(),
                                    ),
                                    None => rb1_before,
                                };
                                assert(valid_utf8(v));
                                assert(rb1_before =~= v + pending);
                                if valid_utf8(rb1_before + payload@) {
                                    assert(v + combined =~= rb1_before + payload@);
                                    crate::incremental_utf8::lemma_valid_prefix_cancel(
                                        v,
                                        combined,
                                    );
                                    assert(combined + Seq::<u8>::empty() =~= combined);
                                    assert(false);
                                }
                                if first {
                                    assert(payload@ =~= old(self).spec_first_payload());
                                    assert(!valid_utf8(
                                        old(self).rb1_view() + old(self).spec_first_payload(),
                                    ));
                                }
                            }
                        }
                        self.curr_op_code = None;
                        self.curr_iuc = None;
                        proof {
                            assert(crate::web_socket_reader::spec_auto_replies_queued(
                                entry_out,
                                self.out_view(),
                                IS_CLIENT,
                                old(self).spec_no_masking(),
                                chain,
                            ));
                        }
                        return Err(e);
                    },
                };
                proof {
                    if first_op_code == OpCode::Text && !self.curr_should_decompress {
                        let pending = match iuc_before {
                            Some(u) => u@,
                            None => Seq::<u8>::empty(),
                        };
                        let combined = pending + payload@;
                        let v = match iuc_before {
                            Some(u) => rb1_before.subrange(
                                0,
                                rb1_before.len() - u@.len(),
                            ),
                            None => rb1_before,
                        };
                        assert(valid_utf8(v));
                        assert(rb1_before =~= v + pending);
                        assert(self.rb1@ =~= v + combined);
                        lemma_text_state_prepend(v, combined, self.curr_iuc);
                        assert(v + combined == self.rb1@);
                        assert(spec_text_state_ok(self.rb1@, self.curr_iuc));
                    }
                }
                if done {
                    self.curr_op_code = None;
                    if first_op_code.is_text() && validate_text {
                        if self.curr_iuc.is_some() {
                            proof {
                                crate::web_socket_reader::lemma_text_stream_acceptance(
                                    self.rb1@,
                                    self.curr_iuc,
                                );
                            }
                            self.curr_iuc = None;
                            proof {
                                assert(crate::web_socket_reader::spec_auto_replies_queued(
                                    entry_out,
                                    self.out_view(),
                                    IS_CLIENT,
                                    old(self).spec_no_masking(),
                                    chain,
                                ));
                            }
                            return Err(Error::InvalidUTF8);
                        }
                    }
                    self.curr_iuc = None;
                    if self.curr_should_decompress {
                        if let Err(e) = copy_from_compressed_rb1_to_rb2::<NC>(
                            first_op_code,
                            &mut self.nc,
                            &mut self.rb1,
                            &mut self.rb2,
                        ) {
                            proof {
                                assert(crate::web_socket_reader::spec_auto_replies_queued(
                                    entry_out,
                                    self.out_view(),
                                    IS_CLIENT,
                                    old(self).spec_no_masking(),
                                    chain,
                                ));
                            }
                            return Err(e);
                        }
                        let mut payload_vec: Vec<u8> = Vec::new();
                        core::mem::swap(&mut payload_vec, &mut self.rb2);
                        proof {
                            assert(crate::web_socket_reader::spec_auto_replies_queued(
                                entry_out,
                                self.out_view(),
                                IS_CLIENT,
                                old(self).spec_no_masking(),
                                chain,
                            ));
                        }
                        return Ok(
                            Some(
                                (Frame::new(true, first_op_code, payload_vec, false),
                                PayloadTy::SecondReader),
                            ),
                        );
                    } else {
                        let mut payload_vec: Vec<u8> = Vec::new();
                        core::mem::swap(&mut payload_vec, &mut self.rb1);
                        proof {
                            assert(crate::web_socket_reader::spec_auto_replies_queued(
                                entry_out,
                                self.out_view(),
                                IS_CLIENT,
                                old(self).spec_no_masking(),
                                chain,
                            ));
                        }
                        return Ok(
                            Some(
                                (Frame::new(true, first_op_code, payload_vec, false),
                                PayloadTy::FirstReader),
                            ),
                        );
                    }
                }
                proof {
                    first = false;
                    assert(crate::web_socket_reader::spec_auto_replies_queued(
                        entry_out,
                        self.out_view(),
                        IS_CLIENT,
                        old(self).spec_no_masking(),
                        chain,
                    ));
                }
            }
        }
    }
}

/// The payload bytes a frame carries on the wire; a named wrapper so that
/// it can hold the quantifier trigger in `write_frame`'s contract.
pub open spec fn wire_payload(compressed: Seq<u8>) -> Seq<u8> {
    compressed
}

/// One frame queued between two states of the out buffer: data frames go
/// through the codec when one is negotiated (some compressed payload under
/// the RSV1 bit), everything else goes as it stands.
pub open spec fn spec_frame_queued(
    old_out: Seq<u8>,
    new_out: Seq<u8>,
    is_client: bool,
    no_masking: bool,
    rsv1_allowed: bool,
    frame: Frame,
) -> bool {
    let is_data = frame.op_code == OpCode::Text || frame.op_code == OpCode::Binary
        || frame.op_code == OpCode::Continuation;
    if is_data && rsv1_allowed {
        exists|compressed: Seq<u8>|
            spec_appended_frame(
                old_out,
                new_out,
                is_client,
                no_masking,
                frame.fin,
                true,
                frame.op_code,
                #[trigger] wire_payload(compressed),
            )
    } else {
        spec_appended_frame(
            old_out,
            new_out,
            is_client,
            no_masking,
            frame.fin,
            false,
            frame.op_code,
            frame.payload@,
        )
    }
}

/// All the frames queued between two states of the out buffer, in order.
pub open spec fn spec_frames_queued(
    old_out: Seq<u8>,
    new_out: Seq<u8>,
    is_client: bool,
    no_masking: bool,
    rsv1_allowed: bool,
    frames: Seq<Frame>,
) -> bool
    decreases frames.len(),
{
    if frames.len() == 0 {
        new_out == old_out
    } else {
        exists|mid: Seq<u8>|
            #[trigger] spec_frame_queued(old_out, mid, is_client, no_masking, rsv1_allowed, frames[0])
                && spec_frames_queued(mid, new_out, is_client, no_masking, rsv1_allowed, frames.skip(1))
    }
}

/// Queuing one more frame extends a queued sequence at its back.
proof fn lemma_frames_queued_snoc(
    old_out: Seq<u8>,
    mid_out: Seq<u8>,
    new_out: Seq<u8>,
    is_client: bool,
    no_masking: bool,
    rsv1_allowed: bool,
    frames: Seq<Frame>,
    i: int,
)
    requires
        0 <= i < frames.len(),
        spec_frames_queued(old_out, mid_out, is_client, no_masking, rsv1_allowed, frames.take(i)),
        spec_frame_queued(mid_out, new_out, is_client, no_masking, rsv1_allowed, frames[i]),
    ensures
        spec_frames_queued(
            old_out,
            new_out,
            is_client,
            no_masking,
            rsv1_allowed,
            frames.take(i + 1),
        ),
    decreases i,
{
    if i == 0 {
        assert(frames.take(1)[0] == frames[0]);
        assert(frames.take(1).skip(1) =~= Seq::<Frame>::empty());
        assert(spec_frames_queued(
            new_out,
            new_out,
            is_client,
            no_masking,
            rsv1_allowed,
            frames.take(1).skip(1),
        ));
    } else {
        let prefix = frames.take(i);
        let step = choose|m: Seq<u8>|
            #[trigger] spec_frame_queued(old_out, m, is_client, no_masking, rsv1_allowed, prefix[0])
                && spec_frames_queued(m, mid_out, is_client, no_masking, rsv1_allowed, prefix.skip(1));
        assert(prefix.skip(1) =~= frames.skip(1).take(i - 1));
        lemma_frames_queued_snoc(
            step,
            mid_out,
            new_out,
            is_client,
            no_masking,
            rsv1_allowed,
            frames.skip(1),
            i - 1,
        );
        assert(frames.take(i + 1)[0] == frames[0]);
        assert(frames.take(i + 1).skip(1) =~= frames.skip(1).take(i));
        assert(frames.skip(1)[i - 1] == frames[i]);
    }
}

/// Being a prefix is transitive.
proof fn lemma_prefix_trans(a: Seq<u8>, b: Seq<u8>, c: Seq<u8>)
    requires
        a.is_prefix_of(b),
        b.is_prefix_of(c),
    ensures
        a.is_prefix_of(c),
{
    assert forall|i: int| 0 <= i < a.len() implies c[i] == a[i] by {
        assert(b.subrange(0, a.len() as int)[i] == c.subrange(0, b.len() as int)[i]);
    }
    assert(c.subrange(0, a.len() as int) =~= a);
}

} // verus!
