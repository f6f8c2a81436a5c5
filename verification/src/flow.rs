//! The flow engine: a resumable state machine that drives one HTTP
//! request/response exchange without doing any I/O itself. Each call of
//! `next` either asks the driver for one unit of I/O or finishes with a
//! typed outcome; the driver performs the I/O and hands the bytes back.

use vstd::prelude::*;

use crate::framer::{
    spec_body, spec_frame_status, spec_head, spec_keep_alive, spec_location, spec_status_code,
    keep_alive, location, status_code, FrameStatus, ResponseFramer,
};
use crate::request::Request;

verus! {

/// The only two intents a flow can hand its driver: fill the read side
/// with whatever the transport delivers, or send the flow's write buffer.
#[derive(Clone, Copy, Debug, PartialEq, Eq, Structural)]
pub enum Io {
    Read,
    Write,
}

/// The states an HTTP exchange passes through, in order; the only loop
/// is the read retry inside `ReceiveHttpResponse`.
#[derive(Clone, Copy, Debug, PartialEq, Eq, Structural)]
pub enum State {
    SerializeHttpRequest,
    SendHttpRequest,
    ReceiveHttpResponse,
    DeserializeHttpResponse,
}

/// Every way a flow can fail. Transport failures stay with the driver:
/// a flow only ever sees the bytes it was handed.
#[derive(Clone, Copy, Debug, PartialEq, Eq, Structural)]
pub enum ProtocolError {
    /// The head arrived without a `Content-Length` header.
    MissingContentLength,
    /// The `Content-Length` value is not a plain decimal number.
    InvalidContentLength,
    /// The connection closed before the declared body had arrived.
    ConnectionClosed,
    /// The status line of the response could not be read.
    InvalidStatusLine,
    /// The response body does not have the expected XML shape.
    MalformedXml,
    /// A non-success status where the operation required success.
    UnexpectedStatus(u16),
    /// A well-known lookup answered with something else than a redirect.
    NotRedirected(u16),
    /// A redirect without a `Location` header.
    MissingLocation,
    /// No home URI, server URI or discovery parameters are configured.
    MissingConfig,
    /// The configuration names a backend this build does not carry.
    UnsupportedBackend,
}

/// The typed outcome of one complete exchange.
pub struct HttpResponse {
    pub status: u16,
    pub keep_alive: bool,
    pub location: Option<Vec<u8>>,
    pub body: Vec<u8>,
}

/// How an exchange outcome relates to the accumulated response bytes of
/// a complete response: status, keep-alive, location and body are each
/// read off the wire image.
pub open spec fn exchange_output_matches(
    b: Seq<u8>,
    out: Result<HttpResponse, ProtocolError>,
) -> bool {
    match spec_status_code(spec_head(b)) {
        None => out == Err::<HttpResponse, ProtocolError>(ProtocolError::InvalidStatusLine),
        Some(code) => match out {
            Err(_) => false,
            Ok(resp) => {
                &&& resp.status as nat == code
                &&& resp.keep_alive == spec_keep_alive(spec_head(b))
                &&& match spec_location(spec_head(b)) {
                    None => resp.location is None,
                    Some(l) => match resp.location {
                        None => false,
                        Some(v) => v@ == l,
                    },
                }
                &&& resp.body@ == spec_body(b)
            },
        },
    }
}

/// An outcome slot holds an exchange outcome that matches the wire image.
pub open spec fn output_set_matches(
    b: Seq<u8>,
    out_opt: Option<Result<HttpResponse, ProtocolError>>,
) -> bool {
    match out_opt {
        None => false,
        Some(out) => exchange_output_matches(b, out),
    }
}

/// A flow produces a sequence of I/O intents and then an outcome. The
/// exact contracts live on the inherent methods of each flow type; the
/// trait is the common driving surface, which only maintains the flow's
/// own invariant.
pub trait Flow {
    spec fn inv(&self) -> bool;

    fn next(&mut self) -> (r: Option<Io>)
        requires
            old(self).inv(),
        ensures
            final(self).inv(),
    ;
}

/// A flow whose pending request bytes the driver takes to write them.
pub trait TakeRequestBytes: Flow {
    fn take_request_bytes(&mut self) -> (r: Vec<u8>)
        requires
            old(self).inv(),
        ensures
            final(self).inv(),
    ;
}

/// A flow that records how many bytes the driver managed to write.
pub trait WriteBytes: Flow {
    fn set_wrote_bytes_count(&mut self, count: usize)
        requires
            old(self).inv(),
        ensures
            final(self).inv(),
    ;
}

/// A flow that accepts the bytes one transport read delivered. An empty
/// chunk means the transport reached the end of the stream.
pub trait EnqueueResponseBytes: Flow {
    fn enqueue_response_bytes(&mut self, chunk: &[u8])
        requires
            old(self).inv(),
        ensures
            final(self).inv(),
    ;
}

/// A flow that tells the driver how large its read requests should be.
pub trait ReadBytes: Flow {
    fn read_capacity(&self) -> usize
        requires
            self.inv(),
    ;
}

/// One HTTP exchange: serialize the request, await the write, accumulate
/// reads until the framer declares the response complete, then read the
/// status line, connection policy, location and body off the wire image.
pub struct SendReceiveFlow {
    pub state: Option<State>,
    pub write_buffer: Vec<u8>,
    pub framer: ResponseFramer,
    pub eof: bool,
    pub wrote_bytes_count: usize,
    pub output: Option<Result<HttpResponse, ProtocolError>>,
}

impl SendReceiveFlow {
    pub open spec fn wf(self) -> bool {
        self.framer.wf()
    }

    pub fn new(request: Request) -> (r: Self)
        ensures
            r.wf(),
            r.state == Some(State::SerializeHttpRequest),
            r.write_buffer@ == request.bytes@,
            r.framer.bytes@ == Seq::<u8>::empty(),
            !r.eof,
            r.output is None,
    {
        SendReceiveFlow {
            state: Some(State::SerializeHttpRequest),
            write_buffer: request.into_bytes(),
            framer: ResponseFramer::new(),
            eof: false,
            wrote_bytes_count: 0,
            output: None,
        }
    }

    /// Read the typed outcome off a complete response image.
    fn finish_parse(&mut self)
        requires
            old(self).wf(),
            spec_frame_status(old(self).framer.bytes@) == FrameStatus::Complete,
        ensures
            final(self).wf(),
            final(self).state is None,
            final(self).framer == old(self).framer,
            final(self).write_buffer == old(self).write_buffer,
            final(self).eof == old(self).eof,
            output_set_matches(old(self).framer.bytes@, final(self).output),
    {
        let head = self.framer.head();
        let out: Result<HttpResponse, ProtocolError> = match status_code(head.as_slice()) {
            None => Err(ProtocolError::InvalidStatusLine),
            Some(code) => {
                let ka = keep_alive(head.as_slice());
                let loc = location(head.as_slice());
                let body = self.framer.body();
                Ok(HttpResponse { status: code, keep_alive: ka, location: loc, body })
            },
        };
        self.output = Some(out);
        self.state = None;
    }

    /// One step of the exchange. `Some(io)` asks the driver for that
    /// I/O; `None` means the flow has finished and `output` holds the
    /// outcome of the exchange.
    pub fn next(&mut self) -> (r: Option<Io>)
        requires
            old(self).wf(),
        ensures
            final(self).wf(),
            final(self).write_buffer == old(self).write_buffer,
            final(self).framer == old(self).framer,
            final(self).eof == old(self).eof,
            match old(self).state {
                None => r is None && final(self).state is None && final(self).output == old(
                    self,
                ).output,
                Some(State::SerializeHttpRequest) => r == Some(Io::Write) && final(self).state
                    == Some(State::SendHttpRequest) && final(self).output == old(self).output,
                Some(State::SendHttpRequest) => r == Some(Io::Read) && final(self).state == Some(
                    State::ReceiveHttpResponse,
                ) && final(self).output == old(self).output,
                Some(State::ReceiveHttpResponse) => {
                    let b = old(self).framer.bytes@;
                    match spec_frame_status(b) {
                        FrameStatus::Incomplete => if old(self).eof {
                            r is None && final(self).state is None && final(self).output == Some(
                                Err::<HttpResponse, ProtocolError>(ProtocolError::ConnectionClosed),
                            )
                        } else {
                            r == Some(Io::Read) && final(self).state == Some(
                                State::ReceiveHttpResponse,
                            ) && final(self).output == old(self).output
                        },
                        FrameStatus::MissingContentLength => r is None && final(self).state is None
                            && final(self).output == Some(
                            Err::<HttpResponse, ProtocolError>(ProtocolError::MissingContentLength),
                        ),
                        FrameStatus::InvalidContentLength => r is None && final(self).state is None
                            && final(self).output == Some(
                            Err::<HttpResponse, ProtocolError>(ProtocolError::InvalidContentLength),
                        ),
                        FrameStatus::Complete => r is None && final(self).state is None
                            && output_set_matches(b, final(self).output),
                    }
                },
                Some(State::DeserializeHttpResponse) => {
                    let b = old(self).framer.bytes@;
                    if spec_frame_status(b) == FrameStatus::Complete {
                        r is None && final(self).state is None && output_set_matches(
                            b,
                            final(self).output,
                        )
                    } else {
                        r is None && final(self).state is None
                    }
                },
            },
    {
        match self.state {
            None => None,
            Some(State::SerializeHttpRequest) => {
                self.state = Some(State::SendHttpRequest);
                Some(Io::Write)
            },
            Some(State::SendHttpRequest) => {
                self.state = Some(State::ReceiveHttpResponse);
                Some(Io::Read)
            },
            Some(State::ReceiveHttpResponse) => {
                match self.framer.status() {
                    FrameStatus::Incomplete => {
                        if self.eof {
                            self.state = None;
                            self.output = Some(Err(ProtocolError::ConnectionClosed));
                            None
                        } else {
                            self.state = Some(State::ReceiveHttpResponse);
                            Some(Io::Read)
                        }
                    },
                    FrameStatus::MissingContentLength => {
                        self.state = None;
                        self.output = Some(Err(ProtocolError::MissingContentLength));
                        None
                    },
                    FrameStatus::InvalidContentLength => {
                        self.state = None;
                        self.output = Some(Err(ProtocolError::InvalidContentLength));
                        None
                    },
                    FrameStatus::Complete => {
                        self.state = Some(State::DeserializeHttpResponse);
                        self.finish_parse();
                        None
                    },
                }
            },
            Some(State::DeserializeHttpResponse) => {
                match self.framer.status() {
                    FrameStatus::Complete => {
                        self.finish_parse();
                        None
                    },
                    _ => {
                        self.state = None;
                        None
                    },
                }
            },
        }
    }

    /// Hand the pending request bytes to the driver; the write buffer is
    /// consumed once.
    pub fn take_request_bytes(&mut self) -> (r: Vec<u8>)
        requires
            old(self).wf(),
        ensures
            final(self).wf(),
            r@ == old(self).write_buffer@,
            final(self).write_buffer@ == Seq::<u8>::empty(),
            final(self).state == old(self).state,
            final(self).framer == old(self).framer,
            final(self).eof == old(self).eof,
            final(self).output == old(self).output,
    {
        let r = self.write_buffer.split_off(0);
        proof {
            assert(r@ =~= old(self).write_buffer@);
            assert(self.write_buffer@ =~= Seq::<u8>::empty());
        }
        r
    }

    /// Accept the bytes one transport read delivered; an empty chunk
    /// records that the connection closed.
    pub fn enqueue_response_bytes(&mut self, chunk: &[u8])
        requires
            old(self).wf(),
        ensures
            final(self).wf(),
            final(self).framer.bytes@ == old(self).framer.bytes@ + chunk@,
            final(self).eof == (old(self).eof || chunk@.len() == 0),
            final(self).state == old(self).state,
            final(self).write_buffer == old(self).write_buffer,
            final(self).output == old(self).output,
    {
        if chunk.len() == 0 {
            self.eof = true;
        }
        self.framer.feed(chunk);
    }

    /// Record how many bytes the driver wrote.
    pub fn set_wrote_bytes_count(&mut self, count: usize)
        requires
            old(self).wf(),
        ensures
            final(self).wf(),
            final(self).wrote_bytes_count == count,
            final(self).state == old(self).state,
            final(self).framer == old(self).framer,
            final(self).write_buffer == old(self).write_buffer,
            final(self).eof == old(self).eof,
            final(self).output == old(self).output,
    {
        self.wrote_bytes_count = count;
    }

    /// How many bytes a single transport read should deliver at most.
    pub fn read_capacity(&self) -> (r: usize)
        ensures
            r == 512,
    {
        512
    }

    /// The outcome, once the flow has finished; it can be taken once.
    pub fn output(&mut self) -> (r: Option<Result<HttpResponse, ProtocolError>>)
        ensures
            r == old(self).output,
            final(self).output is None,
            final(self).state == old(self).state,
            final(self).framer == old(self).framer,
            final(self).write_buffer == old(self).write_buffer,
            final(self).eof == old(self).eof,
    {
        self.output.take()
    }
}

impl Flow for SendReceiveFlow {
    open spec fn inv(&self) -> bool {
        self.wf()
    }

    fn next(&mut self) -> Option<Io> {
        self.next()
    }
}

impl TakeRequestBytes for SendReceiveFlow {
    fn take_request_bytes(&mut self) -> Vec<u8> {
        self.take_request_bytes()
    }
}

impl WriteBytes for SendReceiveFlow {
    fn set_wrote_bytes_count(&mut self, count: usize) {
        self.set_wrote_bytes_count(count)
    }
}

impl EnqueueResponseBytes for SendReceiveFlow {
    fn enqueue_response_bytes(&mut self, chunk: &[u8]) {
        self.enqueue_response_bytes(chunk)
    }
}

impl ReadBytes for SendReceiveFlow {
    fn read_capacity(&self) -> usize {
        self.read_capacity()
    }
}

} // verus!
