//! The ALPN protocol list of a TLS ClientHello.
//!
//! The wire format is given twice: as [`ClientHello::encode`], which lays out a
//! message from its parts, and as [`client_hello_alpn`], which takes a message
//! apart. [`law_alpn_of_encoding`] proves that they describe the same messages.

use crate::bytes::{be_bytes, be_limit, be_value, prefixed, take_prefixed, vec_views};
use crate::bytes::{law_be_limit, law_prefixed_layout};
use crate::bytes::{
    law_be_bytes_of_value, law_be_value_of_bytes, law_take_prefixed, lemma_be_bytes_len,
    lemma_be_value_bound, lemma_take_prefixed_len, lemma_vec_views_push,
};
use crate::reader::Reader;
use vstd::prelude::*;

verus! {

/// The handshake type of a ClientHello.
pub const CLIENT_HELLO: u8 = 0x01;

/// The extension type of the ALPN extension.
pub const ALPN_EXTENSION: u16 = 16;

/// The protocol version (two bytes) and the random (thirty-two bytes).
pub const PREAMBLE_LEN: usize = 34;

/// An extension: its type and its data.
pub struct Extension {
    pub ty: u16,
    pub data: Seq<u8>,
}

impl Extension {
    /// The extension on the wire.
    pub open spec fn encode(self) -> Seq<u8> {
        be_bytes(self.ty as nat, 2) + prefixed(self.data, 2)
    }

    /// Whether the data fits the length that is written ahead of it.
    pub open spec fn fits(self) -> bool {
        self.data.len() < be_limit(2)
    }
}

/// Extensions on the wire.
pub open spec fn encode_extensions(extensions: Seq<Extension>) -> Seq<u8>
    decreases extensions.len(),
{
    if extensions.len() == 0 {
        Seq::empty()
    } else {
        extensions[0].encode() + encode_extensions(extensions.drop_first())
    }
}

/// Whether the data of every extension fits the length ahead of it.
pub open spec fn all_fit(extensions: Seq<Extension>) -> bool {
    forall|i: int| 0 <= i < extensions.len() ==> (#[trigger] extensions[i]).fits()
}

/// Protocol names on the wire.
pub open spec fn encode_protocols(protocols: Seq<Seq<u8>>) -> Seq<u8>
    decreases protocols.len(),
{
    if protocols.len() == 0 {
        Seq::empty()
    } else {
        prefixed(protocols[0], 1) + encode_protocols(protocols.drop_first())
    }
}

/// The parts of a ClientHello message that has an ALPN extension.
pub struct ClientHello {
    /// The protocol version and the random.
    pub preamble: Seq<u8>,
    pub session_id: Seq<u8>,
    pub cipher_suites: Seq<u8>,
    pub compression_methods: Seq<u8>,
    /// The extensions ahead of the first ALPN extension.
    pub before: Seq<Extension>,
    /// The protocols that the first ALPN extension lists.
    pub protocols: Seq<Seq<u8>>,
    /// The extensions behind the first ALPN extension, of any type.
    pub after_alpn: Seq<Extension>,
    /// What follows the message.
    pub after_message: Seq<u8>,
}

impl ClientHello {
    /// The first ALPN extension: its data is the list and nothing else.
    pub open spec fn alpn_extension(self) -> Extension {
        Extension { ty: ALPN_EXTENSION, data: prefixed(encode_protocols(self.protocols), 2) }
    }

    /// All extensions.
    pub open spec fn extensions(self) -> Seq<Extension> {
        self.before + seq![self.alpn_extension()] + self.after_alpn
    }

    /// The extension block.
    pub open spec fn extension_block(self) -> Seq<u8> {
        encode_extensions(self.extensions())
    }

    /// The body of the message, which ends with the extension block.
    pub open spec fn body(self) -> Seq<u8> {
        self.preamble + (prefixed(self.session_id, 1) + (prefixed(self.cipher_suites, 2) + (
        prefixed(self.compression_methods, 1) + prefixed(self.extension_block(), 2))))
    }

    /// The message, its type, the length of its body and the body, and what
    /// follows it.
    pub open spec fn encode(self) -> Seq<u8> {
        seq![CLIENT_HELLO] + (prefixed(self.body(), 3) + self.after_message)
    }

    /// Whether every part fits the length that is written ahead of it, and no
    /// ALPN extension stands ahead of the first.
    pub open spec fn wf(self) -> bool {
        &&& self.preamble.len() == PREAMBLE_LEN
        &&& self.session_id.len() < be_limit(1)
        &&& self.cipher_suites.len() < be_limit(2)
        &&& self.compression_methods.len() < be_limit(1)
        &&& forall|i: int|
            0 <= i < self.before.len() ==> (#[trigger] self.before[i]).ty != ALPN_EXTENSION
        &&& all_fit(self.extensions())
        &&& forall|i: int|
            0 <= i < self.protocols.len() ==> (#[trigger] self.protocols[i]).len() < be_limit(1)
        &&& encode_protocols(self.protocols).len() < be_limit(2)
        &&& self.extension_block().len() < be_limit(2)
        &&& self.body().len() < be_limit(3)
    }
}

/// Whether `bytes` is a ClientHello whose first ALPN extension lists `protocols`.
pub open spec fn carries_alpn(bytes: Seq<u8>, protocols: Seq<Seq<u8>>) -> bool {
    exists|hello: ClientHello|
        hello.wf() && hello.protocols == protocols && #[trigger] hello.encode() == bytes
}

/// The extension block of a ClientHello.
pub open spec fn extension_block_of(bytes: Seq<u8>) -> Option<Seq<u8>> {
    if bytes.len() == 0 || bytes[0] != CLIENT_HELLO {
        None
    } else {
        match take_prefixed(bytes.skip(1), 3) {
            Some((body, _)) => extension_block_of_body(body),
            None => None,
        }
    }
}

/// The extension block of the body of a ClientHello, which ends the body.
pub open spec fn extension_block_of_body(body: Seq<u8>) -> Option<Seq<u8>> {
    if body.len() < PREAMBLE_LEN {
        None
    } else {
        match take_prefixed(body.skip(PREAMBLE_LEN as int), 1) {
            Some((_, after_session_id)) => match take_prefixed(after_session_id, 2) {
                Some((_, after_cipher_suites)) => match take_prefixed(after_cipher_suites, 1) {
                    Some((_, after_compression)) => match take_prefixed(after_compression, 2) {
                        Some((block, rest)) => if rest.len() == 0 {
                            Some(block)
                        } else {
                            None
                        },
                        None => None,
                    },
                    None => None,
                },
                None => None,
            },
            None => None,
        }
    }
}

/// Whether an extension block is a sequence of whole extensions.
pub open spec fn extensions_whole(block: Seq<u8>) -> bool
    decreases block.len(),
{
    block.len() == 0 || (block.len() >= 2 && (take_prefixed(block.skip(2), 2) matches Some(
        (_, rest),
    ) && extensions_whole(rest)))
}

/// The data of the first ALPN extension of an extension block.
pub open spec fn first_alpn_data(block: Seq<u8>) -> Option<Seq<u8>>
    decreases block.len(),
{
    if block.len() < 2 {
        None
    } else {
        match take_prefixed(block.skip(2), 2) {
            Some((data, rest)) => if be_value(block.take(2)) == ALPN_EXTENSION {
                Some(data)
            } else {
                first_alpn_data(rest)
            },
            None => None,
        }
    }
}

/// The protocol names that make up `list`.
pub open spec fn protocol_names(list: Seq<u8>) -> Option<Seq<Seq<u8>>>
    decreases list.len(),
{
    if list.len() == 0 {
        Some(Seq::empty())
    } else {
        match take_prefixed(list, 1) {
            Some((name, rest)) => match protocol_names(rest) {
                Some(names) => Some(seq![name] + names),
                None => None,
            },
            None => None,
        }
    }
}

/// The protocol names that the data of an ALPN extension lists. The list is all
/// that the data holds.
pub open spec fn listed_protocols(data: Seq<u8>) -> Option<Seq<Seq<u8>>> {
    match take_prefixed(data, 2) {
        Some((list, rest)) => if rest.len() == 0 {
            protocol_names(list)
        } else {
            None
        },
        None => None,
    }
}

/// The protocols that the first ALPN extension of a ClientHello lists.
pub open spec fn client_hello_alpn(bytes: Seq<u8>) -> Option<Seq<Seq<u8>>> {
    match extension_block_of(bytes) {
        Some(block) => if extensions_whole(block) {
            match first_alpn_data(block) {
                Some(data) => listed_protocols(data),
                None => None,
            }
        } else {
            None
        },
        None => None,
    }
}

/// Takes a vector with a one-byte length.
fn take_vec8<'a>(r: &mut Reader<'a>) -> (content: Option<&'a [u8]>)
    ensures
        match content {
            Some(c) => take_prefixed(old(r)@, 1) == Some((c@, final(r)@)),
            None => take_prefixed(old(r)@, 1) is None,
        },
{
    let ghost start = r@;
    let n = r.u8()?;
    let content = r.take(n as usize)?;
    proof {
        assert(start.skip(1).take(n as int) =~= start.subrange(1, 1 + n));
        assert(start.skip(1).skip(n as int) =~= start.skip(1 + n));
    }
    Some(content)
}

/// Takes a vector with a two-byte length.
fn take_vec16<'a>(r: &mut Reader<'a>) -> (content: Option<&'a [u8]>)
    ensures
        match content {
            Some(c) => take_prefixed(old(r)@, 2) == Some((c@, final(r)@)),
            None => take_prefixed(old(r)@, 2) is None,
        },
{
    let ghost start = r@;
    let n = r.u16()?;
    let content = r.take(n as usize)?;
    proof {
        assert(start.skip(2).take(n as int) =~= start.subrange(2, 2 + n));
        assert(start.skip(2).skip(n as int) =~= start.skip(2 + n));
    }
    Some(content)
}

/// Reads the protocol names that make up `list`.
fn read_protocol_names(list: &[u8]) -> (names: Option<Vec<Vec<u8>>>)
    ensures
        match names {
            Some(n) => protocol_names(list@) == Some(vec_views(n@)),
            None => protocol_names(list@) is None,
        },
{
    let mut a = Reader::new(list);
    let mut names: Vec<Vec<u8>> = Vec::new();
    proof {
        assert(vec_views(names@) =~= Seq::empty());
        if let Some(rest) = protocol_names(list@) {
            assert(Seq::<Seq<u8>>::empty() + rest =~= rest);
        }
    }
    while !a.is_empty()
        invariant
            match protocol_names(a@) {
                Some(rest) => protocol_names(list@) == Some(vec_views(names@) + rest),
                None => protocol_names(list@) is None,
            },
        decreases a@.len(),
    {
        let ghost before = a@;
        let ghost old_names = names@;
        proof {
            lemma_take_prefixed_len(before, 1);
        }
        let name = take_vec8(&mut a)?;
        let owned = vstd::slice::slice_to_vec(name);
        names.push(owned);
        proof {
            lemma_vec_views_push(old_names, owned);
            if let Some(rest) = protocol_names(a@) {
                assert(vec_views(old_names) + (seq![name@] + rest) =~= vec_views(names@) + rest);
            }
        }
    }
    proof {
        assert(vec_views(names@) + Seq::<Seq<u8>>::empty() =~= vec_views(names@));
    }
    Some(names)
}

/// Finds the data of the first ALPN extension of an extension block, going
/// through the whole block.
fn find_alpn_data<'a>(block: &'a [u8]) -> (data: Option<&'a [u8]>)
    ensures
        match data {
            Some(d) => extensions_whole(block@) && first_alpn_data(block@) == Some(d@),
            None => !extensions_whole(block@) || first_alpn_data(block@) is None,
        },
{
    let mut r = Reader::new(block);
    let mut found: Option<&'a [u8]> = None;
    while !r.is_empty()
        invariant
            extensions_whole(r@) == extensions_whole(block@),
            match found {
                Some(d) => first_alpn_data(block@) == Some(d@),
                None => first_alpn_data(block@) == first_alpn_data(r@),
            },
        decreases r@.len(),
    {
        let ghost before = r@;
        let ty = r.u16()?;
        proof {
            lemma_take_prefixed_len(before.skip(2), 2);
        }
        let data = take_vec16(&mut r)?;
        if ty == ALPN_EXTENSION && found.is_none() {
            found = Some(data);
        }
    }
    found
}

/// Finds the extension block of a ClientHello.
fn find_extension_block<'a>(bytes: &'a [u8]) -> (block: Option<&'a [u8]>)
    ensures
        match block {
            Some(b) => extension_block_of(bytes@) == Some(b@),
            None => extension_block_of(bytes@) is None,
        },
{
    let mut r = Reader::new(bytes);
    if r.u8()? != CLIENT_HELLO {
        return None;
    }
    let ghost framed = r@;
    let body_len = r.u24()?;
    let body = r.take(body_len as usize)?;
    proof {
        assert(framed.skip(3).take(body_len as int) =~= framed.subrange(3, 3 + body_len));
    }
    let mut r = Reader::new(body);
    let _legacy_version = r.take(2)?;
    let _random = r.take(32)?;
    proof {
        assert(body@.skip(2).skip(32) =~= body@.skip(34));
    }
    take_vec8(&mut r)?;
    take_vec16(&mut r)?;
    take_vec8(&mut r)?;
    let block = take_vec16(&mut r)?;
    if r.is_empty() {
        Some(block)
    } else {
        None
    }
}

/// Extracts the ALPN protocol list from a TLS ClientHello handshake message.
///
/// `bytes` starts with the raw handshake message: the one-byte handshake type, a
/// three-byte length and the body; what follows the body is not part of it. The
/// result is `None` if the message is malformed, not a ClientHello, or has no ALPN
/// extension. A message is well-formed if its body ends with its extension block,
/// the block is made of whole extensions, and its first ALPN extension holds a
/// list of whole names and nothing else. An ALPN extension with an empty list
/// gives `Some(vec![])`.
pub fn parse_client_hello_alpn(bytes: &[u8]) -> (protocols: Option<Vec<Vec<u8>>>)
    ensures
        match protocols {
            Some(p) => {
                &&& client_hello_alpn(bytes@) == Some(vec_views(p@))
                &&& carries_alpn(bytes@, vec_views(p@))
            },
            None => {
                &&& client_hello_alpn(bytes@) is None
                &&& forall|p: Seq<Seq<u8>>| !carries_alpn(bytes@, p)
            },
        },
{
    proof {
        assert forall|p: Seq<Seq<u8>>| client_hello_alpn(bytes@) == Some(p) <==> carries_alpn(
            bytes@,
            p,
        ) by {
            law_alpn_of_encoding(bytes@, p);
        }
    }
    let block = find_extension_block(bytes)?;
    let data = find_alpn_data(block)?;
    let mut a = Reader::new(data);
    let list = take_vec16(&mut a)?;
    if !a.is_empty() {
        return None;
    }
    read_protocol_names(list)
}

/// The protocol names of a list are those that encode to it.
pub proof fn law_protocol_names(list: Seq<u8>, names: Seq<Seq<u8>>)
    ensures
        protocol_names(list) == Some(names) <==> {
            &&& encode_protocols(names) == list
            &&& forall|i: int| 0 <= i < names.len() ==> (#[trigger] names[i]).len() < be_limit(1)
        },
    decreases list.len(), names.len(),
{
    if protocol_names(list) == Some(names) {
        if list.len() == 0 {
            assert(encode_protocols(names) =~= list);
        } else {
            let (name, rest) = take_prefixed(list, 1).unwrap();
            lemma_take_prefixed_len(list, 1);
            let tail = protocol_names(rest).unwrap();
            assert(names.drop_first() =~= tail);
            law_take_prefixed(list, 1, name, rest);
            law_protocol_names(rest, tail);
            assert forall|i: int| 0 <= i < names.len() implies (#[trigger] names[i]).len()
                < be_limit(1) by {
                if i > 0 {
                    assert(names[i] == tail[i - 1]);
                }
            }
        }
    }
    if encode_protocols(names) == list && (forall|i: int|
        0 <= i < names.len() ==> (#[trigger] names[i]).len() < be_limit(1)) {
        if names.len() == 0 {
            assert(names =~= Seq::empty());
        } else {
            let tail = names.drop_first();
            let rest = encode_protocols(tail);
            law_take_prefixed(list, 1, names[0], rest);
            lemma_take_prefixed_len(list, 1);
            assert forall|i: int| 0 <= i < tail.len() implies (#[trigger] tail[i]).len() < be_limit(
                1,
            ) by {
                assert(tail[i] == names[i + 1]);
            }
            law_protocol_names(rest, tail);
            assert(seq![names[0]] + tail =~= names);
        }
    }
}

/// A message parses to a protocol list exactly when it is the encoding of a
/// ClientHello with that list.
pub proof fn law_alpn_of_encoding(bytes: Seq<u8>, protocols: Seq<Seq<u8>>)
    ensures
        client_hello_alpn(bytes) == Some(protocols) <==> carries_alpn(bytes, protocols),
{
    if client_hello_alpn(bytes) == Some(protocols) {
        lemma_parsed_is_encoded(bytes, protocols);
    }
    if carries_alpn(bytes, protocols) {
        let hello = choose|hello: ClientHello|
            hello.wf() && hello.protocols == protocols && #[trigger] hello.encode() == bytes;
        law_encoded_is_parsed(hello);
    }
}

/// A ClientHello that is cut short gives no protocol list.
pub proof fn law_truncated_refused(hello: ClientHello, n: int)
    requires
        hello.wf(),
        hello.after_message.len() == 0,
        0 <= n < hello.encode().len(),
    ensures
        client_hello_alpn(hello.encode().take(n)) is None,
{
    let bytes = hello.encode();
    let cut = bytes.take(n);
    if n >= 4 {
        let body = hello.body();
        let head = be_bytes(body.len(), 3);
        lemma_be_bytes_len(body.len(), 3);
        law_be_value_of_bytes(body.len(), 3);
        assert(cut.skip(1).take(3) =~= head);
        assert(bytes.len() == 4 + body.len());
        assert(take_prefixed(cut.skip(1), 3) is None);
    }
}

/// Two ClientHello messages with the same encoding list the same protocols.
pub proof fn law_alpn_unambiguous(a: ClientHello, b: ClientHello)
    requires
        a.wf(),
        b.wf(),
        a.encode() == b.encode(),
    ensures
        a.protocols == b.protocols,
{
    law_encoded_is_parsed(a);
    law_encoded_is_parsed(b);
}

/// An encoded extension is taken off the front of a block.
proof fn lemma_encoded_head(ext: Extension, rest: Seq<u8>)
    requires
        ext.fits(),
    ensures
        ({
            let block = ext.encode() + rest;
            &&& block.len() >= 2
            &&& be_value(block.take(2)) == ext.ty
            &&& take_prefixed(block.skip(2), 2) == Some((ext.data, rest))
        }),
{
    let block = ext.encode() + rest;
    let head = be_bytes(ext.ty as nat, 2);
    reveal_with_fuel(be_limit, 3);
    lemma_be_bytes_len(ext.ty as nat, 2);
    law_be_value_of_bytes(ext.ty as nat, 2);
    assert(block.take(2) =~= head);
    assert(block.skip(2) =~= prefixed(ext.data, 2) + rest);
    law_take_prefixed(block.skip(2), 2, ext.data, rest);
}

/// Extensions but the first still fit.
proof fn lemma_tail_fits(extensions: Seq<Extension>)
    requires
        all_fit(extensions),
        extensions.len() > 0,
    ensures
        all_fit(extensions.drop_first()),
{
    let tail = extensions.drop_first();
    assert forall|i: int| 0 <= i < tail.len() implies (#[trigger] tail[i]).fits() by {
        assert(tail[i] == extensions[i + 1]);
    }
}

/// The encoding of extensions is a block of whole extensions.
pub proof fn law_encoded_extensions_whole(extensions: Seq<Extension>)
    requires
        all_fit(extensions),
    ensures
        extensions_whole(encode_extensions(extensions)),
    decreases extensions.len(),
{
    if extensions.len() > 0 {
        lemma_tail_fits(extensions);
        assert(extensions[0].fits());
        lemma_encoded_head(extensions[0], encode_extensions(extensions.drop_first()));
        law_encoded_extensions_whole(extensions.drop_first());
    }
}

/// A block of whole extensions is the encoding of some extensions.
pub proof fn law_whole_block_encoded(block: Seq<u8>) -> (extensions: Seq<Extension>)
    requires
        extensions_whole(block),
    ensures
        all_fit(extensions),
        encode_extensions(extensions) == block,
    decreases block.len(),
{
    if block.len() == 0 {
        let none = Seq::<Extension>::empty();
        assert(encode_extensions(none) =~= block);
        none
    } else {
        let (data, rest) = take_prefixed(block.skip(2), 2).unwrap();
        law_take_prefixed(block.skip(2), 2, data, rest);
        lemma_take_prefixed_len(block.skip(2), 2);
        let head = block.take(2);
        law_be_bytes_of_value(head);
        lemma_be_value_bound(head);
        reveal_with_fuel(be_limit, 3);
        let ext = Extension { ty: be_value(head) as u16, data };
        assert(block =~= head + block.skip(2));
        assert(block =~= ext.encode() + rest);
        let tail = law_whole_block_encoded(rest);
        let extensions = seq![ext] + tail;
        assert(extensions.drop_first() =~= tail);
        assert forall|i: int| 0 <= i < extensions.len() implies (#[trigger] extensions[i]).fits() by {
            if i > 0 {
                assert(extensions[i] == tail[i - 1]);
            }
        }
        extensions
    }
}

/// The first ALPN extension is found behind any number of other extensions.
proof fn lemma_find_encoded_alpn(extensions: Seq<Extension>, k: int)
    requires
        all_fit(extensions),
        0 <= k < extensions.len(),
        extensions[k].ty == ALPN_EXTENSION,
        forall|i: int| 0 <= i < k ==> (#[trigger] extensions[i]).ty != ALPN_EXTENSION,
    ensures
        first_alpn_data(encode_extensions(extensions)) == Some(extensions[k].data),
    decreases k,
{
    let tail = extensions.drop_first();
    assert(extensions[0].fits());
    lemma_encoded_head(extensions[0], encode_extensions(tail));
    if k > 0 {
        lemma_tail_fits(extensions);
        assert(tail[k - 1] == extensions[k]);
        assert forall|i: int| 0 <= i < k - 1 implies (#[trigger] tail[i]).ty != ALPN_EXTENSION by {
            assert(tail[i] == extensions[i + 1]);
        }
        lemma_find_encoded_alpn(tail, k - 1);
    }
}

/// What is found is the data of the first ALPN extension.
proof fn lemma_found_alpn(extensions: Seq<Extension>) -> (k: int)
    requires
        all_fit(extensions),
        first_alpn_data(encode_extensions(extensions)) is Some,
    ensures
        0 <= k < extensions.len(),
        extensions[k].ty == ALPN_EXTENSION,
        forall|i: int| 0 <= i < k ==> (#[trigger] extensions[i]).ty != ALPN_EXTENSION,
        first_alpn_data(encode_extensions(extensions)) == Some(extensions[k].data),
    decreases extensions.len(),
{
    let tail = extensions.drop_first();
    assert(extensions[0].fits());
    lemma_encoded_head(extensions[0], encode_extensions(tail));
    if extensions[0].ty == ALPN_EXTENSION {
        0
    } else {
        lemma_tail_fits(extensions);
        let k = lemma_found_alpn(tail);
        assert forall|i: int| 0 <= i < k + 1 implies (#[trigger] extensions[i]).ty
            != ALPN_EXTENSION by {
            if i > 0 {
                assert(tail[i - 1] == extensions[i]);
            }
        }
        k + 1
    }
}

/// A vector that ends a string is taken off it without a rest.
proof fn lemma_take_last(s: Seq<u8>, width: nat, content: Seq<u8>)
    ensures
        (take_prefixed(s, width) matches Some((c, rest)) && c == content && rest.len() == 0) <==> {
            &&& content.len() < be_limit(width)
            &&& s == prefixed(content, width)
        },
{
    let none = Seq::<u8>::empty();
    law_take_prefixed(s, width, content, none);
    assert(prefixed(content, width) + none =~= prefixed(content, width));
    if let Some((_, rest)) = take_prefixed(s, width) {
        if rest.len() == 0 {
            assert(rest =~= none);
        }
    }
}

/// The extension block is found behind the other fields of a body.
proof fn lemma_find_encoded_block(
    preamble: Seq<u8>,
    session_id: Seq<u8>,
    cipher_suites: Seq<u8>,
    compression_methods: Seq<u8>,
    block: Seq<u8>,
)
    requires
        preamble.len() == PREAMBLE_LEN,
        session_id.len() < be_limit(1),
        cipher_suites.len() < be_limit(2),
        compression_methods.len() < be_limit(1),
        block.len() < be_limit(2),
    ensures
        extension_block_of_body(
            preamble + (prefixed(session_id, 1) + (prefixed(cipher_suites, 2) + (prefixed(
                compression_methods,
                1,
            ) + prefixed(block, 2)))),
        ) == Some(block),
{
    let s5 = prefixed(block, 2);
    let s4 = prefixed(compression_methods, 1) + s5;
    let s3 = prefixed(cipher_suites, 2) + s4;
    let s2 = prefixed(session_id, 1) + s3;
    assert((preamble + s2).skip(PREAMBLE_LEN as int) =~= s2);
    law_take_prefixed(s2, 1, session_id, s3);
    law_take_prefixed(s3, 2, cipher_suites, s4);
    law_take_prefixed(s4, 1, compression_methods, s5);
    lemma_take_last(s5, 2, block);
}

/// The body of a message is found behind its header.
proof fn lemma_find_encoded_body(body: Seq<u8>, after: Seq<u8>)
    requires
        body.len() < be_limit(3),
    ensures
        extension_block_of(seq![CLIENT_HELLO] + (prefixed(body, 3) + after))
            == extension_block_of_body(body),
{
    let framed = prefixed(body, 3) + after;
    let bytes = seq![CLIENT_HELLO] + framed;
    assert(bytes[0] == CLIENT_HELLO);
    assert(bytes.skip(1) =~= framed);
    law_take_prefixed(framed, 3, body, after);
}

/// Parsing the encoding of a ClientHello gives back its protocol list, whatever
/// its other parts hold.
pub proof fn law_encoded_is_parsed(hello: ClientHello)
    requires
        hello.wf(),
    ensures
        client_hello_alpn(hello.encode()) == Some(hello.protocols),
{
    let extensions = hello.extensions();
    let block = hello.extension_block();
    let data = hello.alpn_extension().data;
    assert(extension_block_of(hello.encode()) == Some(block)) by {
        lemma_find_encoded_body(hello.body(), hello.after_message);
        lemma_find_encoded_block(
            hello.preamble,
            hello.session_id,
            hello.cipher_suites,
            hello.compression_methods,
            block,
        );
    }
    assert(extensions_whole(block)) by {
        law_encoded_extensions_whole(extensions);
    }
    assert(first_alpn_data(block) == Some(data)) by {
        let k = hello.before.len() as int;
        assert(extensions[k] == hello.alpn_extension());
        assert forall|i: int| 0 <= i < k implies (#[trigger] extensions[i]).ty
            != ALPN_EXTENSION by {
            assert(extensions[i] == hello.before[i]);
        }
        lemma_find_encoded_alpn(extensions, k);
    }
    assert(listed_protocols(data) == Some(hello.protocols)) by {
        let list = encode_protocols(hello.protocols);
        lemma_take_last(data, 2, list);
        law_protocol_names(list, hello.protocols);
    }
}

/// A body with an extension block is the encoding of its parts.
proof fn lemma_split_body(body: Seq<u8>) -> (parts: (Seq<u8>, Seq<u8>, Seq<u8>))
    requires
        extension_block_of_body(body) is Some,
    ensures
        ({
            let (session_id, cipher_suites, compression_methods) = parts;
            let block = extension_block_of_body(body).unwrap();
            &&& body.len() >= PREAMBLE_LEN
            &&& session_id.len() < be_limit(1)
            &&& cipher_suites.len() < be_limit(2)
            &&& compression_methods.len() < be_limit(1)
            &&& block.len() < be_limit(2)
            &&& body == body.take(PREAMBLE_LEN as int) + (prefixed(session_id, 1) + (prefixed(
                cipher_suites,
                2,
            ) + (prefixed(compression_methods, 1) + prefixed(block, 2))))
        }),
{
    let s2 = body.skip(PREAMBLE_LEN as int);
    let (session_id, s3) = take_prefixed(s2, 1).unwrap();
    law_take_prefixed(s2, 1, session_id, s3);
    let (cipher_suites, s4) = take_prefixed(s3, 2).unwrap();
    law_take_prefixed(s3, 2, cipher_suites, s4);
    let (compression_methods, s5) = take_prefixed(s4, 1).unwrap();
    law_take_prefixed(s4, 1, compression_methods, s5);
    let block = take_prefixed(s5, 2).unwrap().0;
    lemma_take_last(s5, 2, block);
    assert(body =~= body.take(PREAMBLE_LEN as int) + s2);
    (session_id, cipher_suites, compression_methods)
}

/// A block of whole extensions whose first ALPN extension lists `protocols` is the
/// encoding of the extensions ahead of it, of that extension, and of those behind.
proof fn lemma_split_block(block: Seq<u8>, protocols: Seq<Seq<u8>>) -> (parts: (
    Seq<Extension>,
    Seq<Extension>,
))
    requires
        extensions_whole(block),
        first_alpn_data(block) is Some,
        listed_protocols(first_alpn_data(block).unwrap()) == Some(protocols),
    ensures
        ({
            let (before, after) = parts;
            let list = encode_protocols(protocols);
            let alpn = Extension { ty: ALPN_EXTENSION, data: prefixed(list, 2) };
            &&& forall|i: int|
                0 <= i < before.len() ==> (#[trigger] before[i]).ty != ALPN_EXTENSION
            &&& forall|i: int|
                0 <= i < protocols.len() ==> (#[trigger] protocols[i]).len() < be_limit(1)
            &&& list.len() < be_limit(2)
            &&& all_fit(before + seq![alpn] + after)
            &&& encode_extensions(before + seq![alpn] + after) == block
        }),
{
    let extensions = law_whole_block_encoded(block);
    let k = lemma_found_alpn(extensions);
    let data = extensions[k].data;
    let list = take_prefixed(data, 2).unwrap().0;
    lemma_take_last(data, 2, list);
    law_protocol_names(list, protocols);
    let before = extensions.take(k);
    let after = extensions.skip(k + 1);
    assert(before + seq![extensions[k]] + after =~= extensions);
    assert forall|i: int| 0 <= i < before.len() implies (#[trigger] before[i]).ty
        != ALPN_EXTENSION by {
        assert(before[i] == extensions[i]);
    }
    (before, after)
}

/// A message that parses is the encoding of some ClientHello.
proof fn lemma_parsed_is_encoded(bytes: Seq<u8>, protocols: Seq<Seq<u8>>)
    requires
        client_hello_alpn(bytes) == Some(protocols),
    ensures
        carries_alpn(bytes, protocols),
{
    let framed = bytes.skip(1);
    let (body, after_message) = take_prefixed(framed, 3).unwrap();
    let (session_id, cipher_suites, compression_methods) = lemma_split_body(body);
    let block = extension_block_of_body(body).unwrap();
    let (before, after_alpn) = lemma_split_block(block, protocols);
    let hello = ClientHello {
        preamble: body.take(PREAMBLE_LEN as int),
        session_id,
        cipher_suites,
        compression_methods,
        before,
        protocols,
        after_alpn,
        after_message,
    };
    assert(hello.body() == body);
    assert(body.len() < be_limit(3) && hello.encode() == bytes) by {
        law_take_prefixed(framed, 3, body, after_message);
        assert(bytes =~= seq![CLIENT_HELLO] + framed);
    }
}

/// A vector with a one-byte length starts with that length, and its content is all
/// that follows.
pub proof fn law_short_vector_layout(content: Seq<u8>)
    requires
        content.len() < 256,
    ensures
        prefixed(content, 1).len() == 1 + content.len(),
        prefixed(content, 1)[0] == content.len(),
        prefixed(content, 1).skip(1) == content,
{
    law_be_limit(0);
    law_prefixed_layout(content, 1);
    let head = prefixed(content, 1).take(1);
    assert(head.drop_last() =~= Seq::empty());
    assert(be_value(head) == be_value(head.drop_last()) * 256 + head.last());
}

/// An extension on the wire is its type in two bytes, the length of its data in two
/// bytes, and its data.
pub proof fn law_extension_layout(ext: Extension)
    requires
        ext.data.len() < 0x1_0000,
    ensures
        ext.encode().len() == 4 + ext.data.len(),
        be_value(ext.encode().take(2)) == ext.ty,
        be_value(ext.encode().subrange(2, 4)) == ext.data.len(),
        ext.encode().skip(4) == ext.data,
{
    law_be_limit(1);
    lemma_be_bytes_len(ext.ty as nat, 2);
    law_be_value_of_bytes(ext.ty as nat, 2);
    law_prefixed_layout(ext.data, 2);
    let framed = prefixed(ext.data, 2);
    assert(ext.encode().take(2) =~= be_bytes(ext.ty as nat, 2));
    assert(ext.encode().subrange(2, 4) =~= framed.take(2));
    assert(ext.encode().skip(4) =~= framed.skip(2));
}

/// Extensions on the wire stand one behind the other, with nothing between them.
pub proof fn law_extensions_joined(a: Seq<Extension>, ext: Extension, b: Seq<Extension>)
    ensures
        encode_extensions(Seq::empty()) == Seq::<u8>::empty(),
        encode_extensions(seq![ext]) == ext.encode(),
        encode_extensions(a + b) == encode_extensions(a) + encode_extensions(b),
    decreases a.len(),
{
    assert(seq![ext].drop_first() =~= Seq::empty());
    assert(encode_extensions(seq![ext]) =~= ext.encode() + encode_extensions(Seq::empty()));
    assert(encode_extensions(seq![ext]) =~= ext.encode());
    if a.len() == 0 {
        assert(a + b =~= b);
        assert(encode_extensions(a) + encode_extensions(b) =~= encode_extensions(b));
    } else {
        law_extensions_joined(a.drop_first(), ext, b);
        assert((a + b).drop_first() =~= a.drop_first() + b);
        assert(encode_extensions(a + b) =~= encode_extensions(a) + encode_extensions(b));
    }
}

/// Protocol names on the wire stand one behind the other, each with its length in
/// one byte ahead of it.
pub proof fn law_protocols_joined(a: Seq<Seq<u8>>, name: Seq<u8>, b: Seq<Seq<u8>>)
    requires
        name.len() < 256,
    ensures
        encode_protocols(Seq::empty()) == Seq::<u8>::empty(),
        encode_protocols(seq![name]).len() == 1 + name.len(),
        encode_protocols(seq![name])[0] == name.len(),
        encode_protocols(seq![name]).skip(1) == name,
        encode_protocols(a + b) == encode_protocols(a) + encode_protocols(b),
    decreases a.len(),
{
    law_short_vector_layout(name);
    assert(seq![name].drop_first() =~= Seq::empty());
    assert(encode_protocols(seq![name]) =~= prefixed(name, 1) + encode_protocols(Seq::empty()));
    assert(encode_protocols(seq![name]) =~= prefixed(name, 1));
    if a.len() == 0 {
        assert(a + b =~= b);
        assert(encode_protocols(a) + encode_protocols(b) =~= encode_protocols(b));
    } else {
        law_protocols_joined(a.drop_first(), name, b);
        assert((a + b).drop_first() =~= a.drop_first() + b);
        assert(encode_protocols(a + b) =~= encode_protocols(a) + encode_protocols(b));
    }
}

/// A ClientHello is well-formed exactly when its preamble takes thirty-four bytes,
/// no extension of type 16 stands ahead of the one that lists the protocols, and
/// every length fits the one, two or three bytes that it is written in.
pub proof fn law_well_formed(hello: ClientHello)
    ensures
        hello.wf() <==> {
            &&& hello.preamble.len() == 34
            &&& hello.session_id.len() < 0x100
            &&& hello.cipher_suites.len() < 0x1_0000
            &&& hello.compression_methods.len() < 0x100
            &&& forall|i: int|
                0 <= i < hello.before.len() ==> (#[trigger] hello.before[i]).ty != 16
                    && hello.before[i].data.len() < 0x1_0000
            &&& forall|i: int|
                0 <= i < hello.after_alpn.len() ==> (#[trigger] hello.after_alpn[i]).data.len()
                    < 0x1_0000
            &&& forall|i: int|
                0 <= i < hello.protocols.len() ==> (#[trigger] hello.protocols[i]).len() < 0x100
            &&& 2 + encode_protocols(hello.protocols).len() < 0x1_0000
            &&& hello.extension_block().len() < 0x1_0000
            &&& hello.body().len() < 0x100_0000
        },
{
    law_be_limit(2);
    let extensions = hello.extensions();
    let k = hello.before.len() as int;
    let data = hello.alpn_extension().data;
    let list = encode_protocols(hello.protocols);
    lemma_be_bytes_len(list.len(), 2);
    assert(data.len() == 2 + list.len());
    if hello.wf() {
        assert(extensions[k] == hello.alpn_extension());
        assert forall|i: int| 0 <= i < k implies (#[trigger] hello.before[i]).data.len()
            < 0x1_0000 by {
            assert(extensions[i] == hello.before[i]);
        }
        assert forall|i: int| 0 <= i < hello.after_alpn.len() implies (
        #[trigger] hello.after_alpn[i]).data.len() < 0x1_0000 by {
            assert(extensions[k + 1 + i] == hello.after_alpn[i]);
        }
    } else if {
        &&& forall|i: int|
            0 <= i < hello.before.len() ==> (#[trigger] hello.before[i]).ty != 16
                && hello.before[i].data.len() < 0x1_0000
        &&& forall|i: int|
            0 <= i < hello.after_alpn.len() ==> (#[trigger] hello.after_alpn[i]).data.len()
                < 0x1_0000
        &&& 2 + list.len() < 0x1_0000
    } {
        assert forall|i: int| 0 <= i < extensions.len() implies (#[trigger] extensions[i]).fits() by {
            if i < k {
                assert(extensions[i] == hello.before[i]);
            } else if i > k {
                assert(extensions[i] == hello.after_alpn[i - k - 1]);
            }
        }
    }
}

/// A message starts with the byte 1 and the length of its body in three bytes; its
/// body follows, and then whatever stands behind the message.
pub proof fn law_frame_layout(hello: ClientHello)
    requires
        hello.wf(),
    ensures
        ({
            let m = hello.encode();
            let n = hello.body().len() as int;
            &&& m.len() == 4 + n + hello.after_message.len()
            &&& m[0] == 1
            &&& be_value(m.subrange(1, 4)) == n
            &&& m.subrange(4, 4 + n) == hello.body()
            &&& m.skip(4 + n) == hello.after_message
        }),
{
    let m = hello.encode();
    let n = hello.body().len() as int;
    law_prefixed_layout(hello.body(), 3);
    let framed = prefixed(hello.body(), 3);
    assert(m.subrange(1, 4) =~= framed.take(3));
    assert(m.subrange(4, 4 + n) =~= framed.skip(3));
    assert(m.skip(4 + n) =~= hello.after_message);
}

/// A body is the preamble, the session id behind its length in one byte, the cipher
/// suites behind theirs in two, the compression methods behind theirs in one, and
/// the extension block behind its length in two, which ends the body.
pub proof fn law_body_layout(hello: ClientHello)
    requires
        hello.wf(),
    ensures
        ({
            let body = hello.body();
            let at_suites = 35 + hello.session_id.len() as int;
            let at_methods = at_suites + 2 + hello.cipher_suites.len() as int;
            let at_block = at_methods + 1 + hello.compression_methods.len() as int;
            let end = at_block + 2 + hello.extension_block().len() as int;
            &&& body.take(34) == hello.preamble
            &&& body[34] == hello.session_id.len()
            &&& body.subrange(35, at_suites) == hello.session_id
            &&& be_value(body.subrange(at_suites, at_suites + 2)) == hello.cipher_suites.len()
            &&& body.subrange(at_suites + 2, at_methods) == hello.cipher_suites
            &&& body[at_methods] == hello.compression_methods.len()
            &&& body.subrange(at_methods + 1, at_block) == hello.compression_methods
            &&& be_value(body.subrange(at_block, at_block + 2)) == hello.extension_block().len()
            &&& body.subrange(at_block + 2, end) == hello.extension_block()
            &&& body.len() == end
        }),
{
    let body = hello.body();
    let at_suites = 35 + hello.session_id.len() as int;
    let at_methods = at_suites + 2 + hello.cipher_suites.len() as int;
    let at_block = at_methods + 1 + hello.compression_methods.len() as int;
    let end = at_block + 2 + hello.extension_block().len() as int;
    law_be_limit(1);
    law_short_vector_layout(hello.session_id);
    law_short_vector_layout(hello.compression_methods);
    law_prefixed_layout(hello.cipher_suites, 2);
    law_prefixed_layout(hello.extension_block(), 2);
    let session_id = prefixed(hello.session_id, 1);
    let suites = prefixed(hello.cipher_suites, 2);
    let methods = prefixed(hello.compression_methods, 1);
    let block = prefixed(hello.extension_block(), 2);
    assert(body.take(34) =~= hello.preamble);
    assert(body[34] == session_id[0]);
    assert(body.subrange(35, at_suites) =~= session_id.skip(1));
    assert(body.subrange(at_suites, at_suites + 2) =~= suites.take(2));
    assert(body.subrange(at_suites + 2, at_methods) =~= suites.skip(2));
    assert(body[at_methods] == methods[0]);
    assert(body.subrange(at_methods + 1, at_block) =~= methods.skip(1));
    assert(body.subrange(at_block, at_block + 2) =~= block.take(2));
    assert(body.subrange(at_block + 2, end) =~= block.skip(2));
}

/// The extension block is the extensions ahead of the one that lists the protocols,
/// that one, and the ones behind it. That one is of type 16, and its data is the
/// list and its length in two bytes.
pub proof fn law_block_layout(hello: ClientHello)
    requires
        hello.wf(),
    ensures
        ({
            let alpn = hello.alpn_extension();
            &&& hello.extension_block() == encode_extensions(hello.before) + alpn.encode()
                + encode_extensions(hello.after_alpn)
            &&& alpn.ty == 16
            &&& be_value(alpn.data.take(2)) == encode_protocols(hello.protocols).len()
            &&& alpn.data.skip(2) == encode_protocols(hello.protocols)
        }),
{
    let alpn = hello.alpn_extension();
    law_extensions_joined(hello.before + seq![alpn], alpn, hello.after_alpn);
    law_extensions_joined(hello.before, alpn, seq![alpn]);
    law_prefixed_layout(encode_protocols(hello.protocols), 2);
}

/// [`parse_client_hello_alpn`] gives a list exactly for the encodings of well-formed
/// ClientHello messages: the protocols that the message lists, one for one.
pub proof fn law_parse_client_hello_alpn(bytes: &[u8], parsed: Option<Vec<Vec<u8>>>)
    requires
        call_ensures(parse_client_hello_alpn, (bytes,), parsed),
    ensures
        parsed is Some <==> exists|hello: ClientHello|
            hello.wf() && #[trigger] hello.encode() == bytes@,
        forall|hello: ClientHello|
            hello.wf() && #[trigger] hello.encode() == bytes@ ==> (parsed matches Some(protocols)
                && protocols@.len() == hello.protocols.len() && forall|i: int|
                0 <= i < protocols@.len() ==> (#[trigger] protocols@[i])@ == hello.protocols[i]),
{
    assert forall|hello: ClientHello|
        hello.wf() && #[trigger] hello.encode() == bytes@ implies (parsed matches Some(protocols)
        && protocols@.len() == hello.protocols.len() && forall|i: int|
        0 <= i < protocols@.len() ==> (#[trigger] protocols@[i])@ == hello.protocols[i]) by {
        law_encoded_is_parsed(hello);
        let protocols = parsed.unwrap();
        assert(vec_views(protocols@) == hello.protocols);
        assert forall|i: int| 0 <= i < protocols@.len() implies (#[trigger] protocols@[i])@
            == hello.protocols[i] by {
            assert(vec_views(protocols@)[i] == protocols@[i]@);
        }
    }
}

} // verus!
