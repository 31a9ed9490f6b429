//! The boundary that a `permessage-deflate` codec must meet. The engine
//! never looks inside compressed bytes: it only relies on the codec
//! appending its output and reporting how much it wrote.

use vstd::prelude::*;
use crate::error::Error;
use crate::web_socket_error::WebSocketError;

verus! {

/// A negotiated compression context, injected into the engine.
///
/// The contracts state only what every codec guarantees: output buffers
/// grow by exactly the reported number of bytes and existing bytes stay.
/// What the bytes decode to is the codec's business alone.
pub trait NegotiatedCompression: Sized {
    /// Whether frames of this connection may carry the RSV1 bit.
    spec fn spec_rsv1(&self) -> bool;

    /// Whether frames of this connection may carry the RSV1 bit.
    fn rsv1(&self) -> (r: bool)
        ensures
            r == self.spec_rsv1(),
    ;

    /// Inflates `input`, appending onto `output` and returning the number
    /// of bytes written.
    fn decompress(&mut self, input: &[u8], output: &mut Vec<u8>) -> (r: Result<usize, Error>)
        ensures
            old(output)@.is_prefix_of(final(output)@),
            r matches Ok(n) ==> final(output)@.len() == old(output)@.len() + n,
            final(self).spec_rsv1() == old(self).spec_rsv1(),
    ;

    /// Deflates `input`, appending onto `output` and returning the number
    /// of bytes written.
    fn compress(&mut self, input: &[u8], output: &mut Vec<u8>) -> (r: Result<usize, Error>)
        ensures
            old(output)@.is_prefix_of(final(output)@),
            r matches Ok(n) ==> final(output)@.len() == old(output)@.len() + n,
            final(self).spec_rsv1() == old(self).spec_rsv1(),
    ;

    /// Appends the extension headers of a handshake request.
    fn write_req_headers(&self, output: &mut Vec<u8>)
        ensures
            old(output)@.is_prefix_of(final(output)@),
    ;

    /// Appends the extension headers of a handshake response.
    fn write_res_headers(&self, output: &mut Vec<u8>)
        ensures
            old(output)@.is_prefix_of(final(output)@),
    ;
}

/// The absent compression context: RSV1 stays forbidden and the codec
/// operations are never reached.
impl NegotiatedCompression for () {
    open spec fn spec_rsv1(&self) -> bool {
        false
    }

    fn rsv1(&self) -> (r: bool) {
        false
    }

    fn decompress(&mut self, input: &[u8], output: &mut Vec<u8>) -> (r: Result<usize, Error>) {
        Err(Error::WebSocket(WebSocketError::NoCompressionContext))
    }

    fn compress(&mut self, input: &[u8], output: &mut Vec<u8>) -> (r: Result<usize, Error>) {
        Err(Error::WebSocket(WebSocketError::NoCompressionContext))
    }

    fn write_req_headers(&self, output: &mut Vec<u8>) {
    }

    fn write_res_headers(&self, output: &mut Vec<u8>) {
    }
}

} // verus!
