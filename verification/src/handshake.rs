//! The client side of the WebSocket opening handshake (RFC 6455, section 4).
use vstd::prelude::*;
use vstd::string::StringSliceAdditionalSpecFns;
use vstd::utf8::valid_utf8;

use crate::error::Error;
use crate::text::{find_bytes, find_from, lemma_find_from, occurs_at, utf8_text};

verus! {

/// How many bytes of the server's answer are kept while waiting for the end of its header.
pub const RESPONSE_CAPACITY: usize = 512;

/// The request text up to the host name.
pub open spec fn request_head() -> Seq<u8> {
    "GET /websocket/notifications HTTP/1.1\r\nHost: ".spec_bytes()
}

/// The request text between the host name and the key.
pub open spec fn request_upgrade() -> Seq<u8> {
    "\r\nUpgrade: websocket\r\nConnection: Upgrade\r\nSec-WebSocket-Key: ".spec_bytes()
}

/// The request text between the key and the bearer token.
pub open spec fn request_authorization() -> Seq<u8> {
    "\r\nSec-WebSocket-Version: 13\r\nAuthorization: Bearer ".spec_bytes()
}

/// The line ending and the empty line that close the request.
pub open spec fn request_end() -> Seq<u8> {
    "\r\n\r\n".spec_bytes()
}

/// The bytes of the upgrade request for `host`, with key `key`, authorised by `token`.
pub open spec fn upgrade_request(host: Seq<u8>, key: Seq<u8>, token: Seq<u8>) -> Seq<u8> {
    request_head() + host + request_upgrade() + key + request_authorization() + token
        + request_end()
}

/// The request is, byte for byte, the request line `GET /websocket/notifications
/// HTTP/1.1`, `Host: ` with the host, `Upgrade: websocket`, `Connection: Upgrade`,
/// `Sec-WebSocket-Key: ` with the key, `Sec-WebSocket-Version: 13`,
/// `Authorization: Bearer ` with the token, each line ended by CR LF, and an
/// empty line.
pub proof fn law_upgrade_request_text(host: Seq<u8>, key: Seq<u8>, token: Seq<u8>)
    ensures
        upgrade_request(host, key, token) == (seq![
            71u8, 69, 84, 32, 47, 119, 101, 98, 115, 111, 99, 107, 101, 116, 47, 110, 111,
            116, 105, 102, 105, 99, 97, 116, 105, 111, 110, 115, 32, 72, 84, 84, 80, 47,
            49, 46, 49, 13, 10, 72, 111, 115, 116, 58, 32
        ]) + host + (seq![
            13u8, 10, 85, 112, 103, 114, 97, 100, 101, 58, 32, 119, 101, 98, 115, 111, 99,
            107, 101, 116, 13, 10, 67, 111, 110, 110, 101, 99, 116, 105, 111, 110, 58, 32,
            85, 112, 103, 114, 97, 100, 101, 13, 10, 83, 101, 99, 45, 87, 101, 98, 83, 111,
            99, 107, 101, 116, 45, 75, 101, 121, 58, 32
        ]) + key + (seq![
            13u8, 10, 83, 101, 99, 45, 87, 101, 98, 83, 111, 99, 107, 101, 116, 45, 86,
            101, 114, 115, 105, 111, 110, 58, 32, 49, 51, 13, 10, 65, 117, 116, 104, 111,
            114, 105, 122, 97, 116, 105, 111, 110, 58, 32, 66, 101, 97, 114, 101, 114, 32
        ]) + token + (seq![
            13u8, 10, 13, 10
        ]),
{
    broadcast use vstd::string::is_ascii_spec_bytes;

    reveal_strlit("GET /websocket/notifications HTTP/1.1\r\nHost: ");
    assert(vstd::string::is_ascii("GET /websocket/notifications HTTP/1.1\r\nHost: "));
    reveal_strlit("\r\nUpgrade: websocket\r\nConnection: Upgrade\r\nSec-WebSocket-Key: ");
    assert(vstd::string::is_ascii("\r\nUpgrade: websocket\r\nConnection: Upgrade\r\nSec-WebSocket-Key: "));
    reveal_strlit("\r\nSec-WebSocket-Version: 13\r\nAuthorization: Bearer ");
    assert(vstd::string::is_ascii("\r\nSec-WebSocket-Version: 13\r\nAuthorization: Bearer "));
    reveal_strlit("\r\n\r\n");
    assert(vstd::string::is_ascii("\r\n\r\n"));
    assert(request_head() =~= (seq![
            71u8, 69, 84, 32, 47, 119, 101, 98, 115, 111, 99, 107, 101, 116, 47, 110, 111,
            116, 105, 102, 105, 99, 97, 116, 105, 111, 110, 115, 32, 72, 84, 84, 80, 47,
            49, 46, 49, 13, 10, 72, 111, 115, 116, 58, 32
        ]));
    assert(request_upgrade() =~= (seq![
            13u8, 10, 85, 112, 103, 114, 97, 100, 101, 58, 32, 119, 101, 98, 115, 111, 99,
            107, 101, 116, 13, 10, 67, 111, 110, 110, 101, 99, 116, 105, 111, 110, 58, 32,
            85, 112, 103, 114, 97, 100, 101, 13, 10, 83, 101, 99, 45, 87, 101, 98, 83, 111,
            99, 107, 101, 116, 45, 75, 101, 121, 58, 32
        ]));
    assert(request_authorization() =~= (seq![
            13u8, 10, 83, 101, 99, 45, 87, 101, 98, 83, 111, 99, 107, 101, 116, 45, 86,
            101, 114, 115, 105, 111, 110, 58, 32, 49, 51, 13, 10, 65, 117, 116, 104, 111,
            114, 105, 122, 97, 116, 105, 111, 110, 58, 32, 66, 101, 97, 114, 101, 114, 32
        ]));
    assert(request_end() =~= (seq![
            13u8, 10, 13, 10
        ]));
}

/// The token is sent whole: the request ends with `Authorization: Bearer `,
/// then exactly the token's bytes, then the CR LF CR LF that ends the request.
pub proof fn law_token_sent_whole(host: Seq<u8>, key: Seq<u8>, token: Seq<u8>)
    ensures
        ({
            let r = upgrade_request(host, key, token);
            let t = token.len() as int;
            &&& r.len() >= 26 + t
            &&& r.subrange(r.len() - 4, r.len() as int) == seq![13u8, 10, 13, 10]
            &&& r.subrange(r.len() - 4 - t, r.len() - 4) == token
            &&& r.subrange(r.len() - 26 - t, r.len() - 4 - t) == (seq![
            65u8, 117, 116, 104, 111, 114, 105, 122, 97, 116, 105, 111, 110, 58, 32, 66,
            101, 97, 114, 101, 114, 32
        ])
        }),
{
    law_upgrade_request_text(host, key, token);
    let r = upgrade_request(host, key, token);
    let t = token.len() as int;
    let front = (seq![
            71u8, 69, 84, 32, 47, 119, 101, 98, 115, 111, 99, 107, 101, 116, 47, 110, 111,
            116, 105, 102, 105, 99, 97, 116, 105, 111, 110, 115, 32, 72, 84, 84, 80, 47,
            49, 46, 49, 13, 10, 72, 111, 115, 116, 58, 32
        ]) + host + (seq![
            13u8, 10, 85, 112, 103, 114, 97, 100, 101, 58, 32, 119, 101, 98, 115, 111, 99,
            107, 101, 116, 13, 10, 67, 111, 110, 110, 101, 99, 116, 105, 111, 110, 58, 32,
            85, 112, 103, 114, 97, 100, 101, 13, 10, 83, 101, 99, 45, 87, 101, 98, 83, 111,
            99, 107, 101, 116, 45, 75, 101, 121, 58, 32
        ]) + key + (seq![
            13u8, 10, 83, 101, 99, 45, 87, 101, 98, 83, 111, 99, 107, 101, 116, 45, 86,
            101, 114, 115, 105, 111, 110, 58, 32, 49, 51, 13, 10, 65, 117, 116, 104, 111,
            114, 105, 122, 97, 116, 105, 111, 110, 58, 32, 66, 101, 97, 114, 101, 114, 32
        ]);
    assert(r == front + token + seq![13u8, 10, 13, 10]);
    assert(r.subrange(r.len() - 4, r.len() as int) =~= seq![13u8, 10, 13, 10]);
    assert(r.subrange(r.len() - 4 - t, r.len() - 4) =~= token);
    assert(front.subrange(front.len() - 22, front.len() as int) =~= (seq![
            65u8, 117, 116, 104, 111, 114, 105, 122, 97, 116, 105, 111, 110, 58, 32, 66,
            101, 97, 114, 101, 114, 32
        ]));
    assert(r.subrange(r.len() - 26 - t, r.len() - 4 - t) =~= front.subrange(
        front.len() - 22,
        front.len() as int,
    ));
}

fn append_bytes(out: &mut Vec<u8>, bytes: &[u8])
    ensures
        final(out)@ == old(out)@ + bytes@,
{
    out.extend_from_slice(bytes);
    assert(out@ =~= old(out)@ + bytes@);
}

/// The upgrade request that opens the notification stream: a `GET` of
/// `/websocket/notifications` on `host` with the upgrade headers, the
/// `Sec-WebSocket-Key` and version 13, and the bearer token, ending with an
/// empty line.
pub fn handshake_request(host: &str, key: &[u8; 24], token: &str) -> (request: Vec<u8>)
    ensures
        request@ == upgrade_request(host.spec_bytes(), key@, token.spec_bytes()),
{
    let mut request: Vec<u8> = Vec::new();
    append_bytes(&mut request, "GET /websocket/notifications HTTP/1.1\r\nHost: ".as_bytes());
    append_bytes(&mut request, host.as_bytes());
    append_bytes(
        &mut request,
        "\r\nUpgrade: websocket\r\nConnection: Upgrade\r\nSec-WebSocket-Key: ".as_bytes(),
    );
    append_bytes(&mut request, key.as_slice());
    append_bytes(&mut request, "\r\nSec-WebSocket-Version: 13\r\nAuthorization: Bearer ".as_bytes());
    append_bytes(&mut request, token.as_bytes());
    append_bytes(&mut request, "\r\n\r\n".as_bytes());
    request
}

/// The empty line that ends an HTTP header: `\r\n\r\n`.
pub open spec fn header_end() -> Seq<u8> {
    seq![13u8, 10, 13, 10]
}

/// True when `received` holds the end of the response header.
pub open spec fn has_header_end(received: Seq<u8>) -> bool {
    find_from(received, header_end(), 0) is Some
}

/// How the answer stands after a read.
#[derive(Debug, Clone, Copy, PartialEq, Eq, Structural)]
pub enum ReadProgress {
    /// The header is not complete yet: read more.
    NeedMore,
    /// The header is complete.
    Complete,
}

/// Collects the server's answer to the upgrade request until its header is complete.
pub struct HandshakeReader {
    buffer: Vec<u8>,
    search_from: usize,
}

impl HandshakeReader {
    /// The bytes received so far.
    pub closed spec fn received(&self) -> Seq<u8> {
        self.buffer@
    }

    /// The reader waits for more of the header: it holds fewer than
    /// `RESPONSE_CAPACITY` bytes and no header end, and its next search starts
    /// three bytes before the end of what it holds.
    pub closed spec fn awaiting(&self) -> bool {
        &&& self.buffer@.len() < RESPONSE_CAPACITY
        &&& !has_header_end(self.buffer@)
        &&& self.search_from as int == if self.buffer@.len() >= 3 {
            self.buffer@.len() - 3
        } else {
            0
        }
    }

    /// A reader that has received nothing yet.
    pub fn new() -> (r: Self)
        ensures
            r.received() == Seq::<u8>::empty(),
            r.awaiting(),
    {
        let r = HandshakeReader { buffer: Vec::new(), search_from: 0 };
        assert(find_from(r.buffer@, header_end(), 0) is None);
        r
    }

    /// How many more bytes the reader can take.
    pub fn space(&self) -> (n: usize)
        requires
            self.awaiting(),
        ensures
            n == RESPONSE_CAPACITY - self.received().len(),
            n > 0,
    {
        RESPONSE_CAPACITY - self.buffer.len()
    }

    /// The bytes received so far.
    pub fn response(&self) -> (r: &[u8])
        ensures
            r@ == self.received(),
    {
        self.buffer.as_slice()
    }

    /// Takes the bytes of one read. An empty read means the server closed the
    /// connection before the header ended; a header that has not ended when
    /// `RESPONSE_CAPACITY` bytes are in is refused.
    pub fn receive(&mut self, chunk: &[u8]) -> (r: Result<ReadProgress, Error>)
        requires
            old(self).awaiting(),
            chunk@.len() <= RESPONSE_CAPACITY - old(self).received().len(),
        ensures
            chunk@.len() == 0 ==> r == Err::<ReadProgress, Error>(Error::Handshake)
                && final(self).received() == old(self).received(),
            chunk@.len() > 0 ==> final(self).received() == old(self).received() + chunk@,
            chunk@.len() > 0 ==> (r == Ok::<ReadProgress, Error>(ReadProgress::Complete)
                <==> has_header_end(final(self).received())),
            chunk@.len() > 0 ==> (r == Err::<ReadProgress, Error>(Error::Handshake)
                <==> (!has_header_end(final(self).received())
                && final(self).received().len() >= RESPONSE_CAPACITY)),
            chunk@.len() > 0 && !has_header_end(final(self).received())
                && final(self).received().len() < RESPONSE_CAPACITY ==> r == Ok::<
                ReadProgress,
                Error,
            >(ReadProgress::NeedMore),
            r == Ok::<ReadProgress, Error>(ReadProgress::NeedMore) ==> final(self).awaiting(),
    {
        if chunk.len() == 0 {
            return Err(Error::Handshake);
        }
        let ghost before = self.buffer@;
        append_bytes(&mut self.buffer, chunk);
        let terminator: [u8; 4] = [13u8, 10, 13, 10];
        assert(terminator@ =~= header_end());
        let found = find_bytes(self.buffer.as_slice(), terminator.as_slice(), self.search_from);
        proof {
            let now = self.buffer@;
            let from = self.search_from as int;
            lemma_find_from(before, header_end(), 0);
            lemma_find_from(now, header_end(), 0);
            lemma_find_from(now, header_end(), from);
            assert forall|i: int| 0 <= i < from implies !occurs_at(now, header_end(), i) by {
                assert(header_end().len() == 4);
                assert(i + 4 <= before.len());
                assert(!occurs_at(before, header_end(), i));
                assert(now.subrange(i, i + 4) =~= before.subrange(i, i + 4));
            }
            if found.is_some() {
                let i = found.unwrap() as int;
                assert(occurs_at(now, header_end(), i));
            }
        }
        if found.is_some() {
            return Ok(ReadProgress::Complete);
        }
        let position: usize = self.buffer.len();
        self.search_from = if position >= 3 { position - 3 } else { 0 };
        if position >= RESPONSE_CAPACITY {
            return Err(Error::Handshake);
        }
        Ok(ReadProgress::NeedMore)
    }
}

/// The status line text that marks an accepted upgrade: ` 101 `.
pub open spec fn switching_protocols() -> Seq<u8> {
    seq![32u8, 49, 48, 49, 32]
}

/// Accepts the server's answer when it is UTF-8 text that contains ` 101 `
/// (the status code of "Switching Protocols").
pub fn check_handshake_response(response: &[u8]) -> (r: Result<(), Error>)
    ensures
        r is Ok <==> valid_utf8(response@) && find_from(response@, switching_protocols(), 0) is Some,
        r is Err ==> r == Err::<(), Error>(Error::Handshake),
{
    if utf8_text(response).is_none() {
        return Err(Error::Handshake);
    }
    let status: [u8; 5] = [32u8, 49, 48, 49, 32];
    assert(status@ =~= switching_protocols());
    if find_bytes(response, status.as_slice(), 0).is_none() {
        return Err(Error::Handshake);
    }
    Ok(())
}

/// An answer is accepted exactly when it is UTF-8 and ` 101 ` (space, `101`,
/// space) occurs somewhere in it, whatever reason phrase or headers surround it.
pub proof fn law_accepts_any_101_answer(response: Seq<u8>)
    ensures
        (valid_utf8(response) && find_from(response, switching_protocols(), 0) is Some) <==> (
        valid_utf8(response) && exists|i: int|
            0 <= i && i + 5 <= response.len() && #[trigger] response.subrange(i, i + 5)
                == seq![32u8, 49, 48, 49, 32]),
{
    lemma_find_from(response, switching_protocols(), 0);
    if find_from(response, switching_protocols(), 0) is Some {
        let i = find_from(response, switching_protocols(), 0)->0;
        assert(response.subrange(i, i + 5) == seq![32u8, 49, 48, 49, 32]);
    }
    if exists|i: int|
        0 <= i && i + 5 <= response.len() && #[trigger] response.subrange(i, i + 5) == seq![
            32u8,
            49,
            48,
            49,
            32,
        ] {
        let i = choose|i: int|
            0 <= i && i + 5 <= response.len() && #[trigger] response.subrange(i, i + 5) == seq![
                32u8,
                49,
                48,
                49,
                32,
            ];
        assert(occurs_at(response, switching_protocols(), i));
    }
}

} // verus!
