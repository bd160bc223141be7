//! Single-document compression of player files.

use vstd::prelude::*;

verus! {

/// What gzip-decoding a byte string yields: `None` when it is not a complete,
/// well-formed gzip stream (not gzip at all, corrupt or truncated).
pub uninterp spec fn gunzip_of(b: Seq<u8>) -> Option<Seq<u8>>;

/// The gzip stream that encodes a byte string at the default level.
pub uninterp spec fn gzip_of(b: Seq<u8>) -> Seq<u8>;

/// Relies on `flate2::read::GzDecoder` read to its end: the decoded bytes of
/// the stream, or an error when the bytes are not a gzip stream.
#[verifier::external_body]
fn gunzip(b: &Vec<u8>) -> (r: Option<Vec<u8>>)
    ensures
        match r {
            Some(d) => gunzip_of(b@) == Some(d@),
            None => gunzip_of(b@) == None::<Seq<u8>>,
        },
{
    let mut out = Vec::new();
    match std::io::Read::read_to_end(&mut flate2::read::GzDecoder::new(&b[..]), &mut out) {
        Ok(_) => Some(out),
        Err(_) => None,
    }
}

/// Relies on `flate2::write::GzEncoder` at `Compression::default()`, writing
/// into a `Vec`, which never fails to take bytes: the finished gzip stream
/// of the bytes, which `GzDecoder` decodes back to them.
#[verifier::external_body]
fn gzip(b: &Vec<u8>) -> (r: Option<Vec<u8>>)
    ensures
        r is Some,
        r matches Some(c) ==> c@ == gzip_of(b@) && gunzip_of(c@) == Some(b@),
{
    let mut encoder = flate2::write::GzEncoder::new(Vec::new(), flate2::Compression::default());
    if std::io::Write::write_all(&mut encoder, b).is_err() {
        return None;
    }
    encoder.finish().ok()
}

/// The document held by a player file: the decoded bytes when the file is
/// compressed, else the file as it is.
pub open spec fn document_bytes(raw: Seq<u8>, decoded: Option<Seq<u8>>) -> Seq<u8> {
    match decoded {
        Some(d) => d,
        None => raw,
    }
}

/// Picks the document out of a player file, given the outcome of decoding it.
pub fn choose_document(raw: Vec<u8>, decoded: Option<Vec<u8>>) -> (r: Vec<u8>)
    ensures
        r@ == document_bytes(
            raw@,
            match decoded {
                Some(d) => Some(d@),
                None => None::<Seq<u8>>,
            },
        ),
{
    match decoded {
        Some(d) => d,
        None => raw,
    }
}

/// The document held by a player file, which may or may not be compressed.
pub fn player_file_document(raw: Vec<u8>) -> (r: Vec<u8>)
    ensures
        r@ == document_bytes(raw@, gunzip_of(raw@)),
{
    let decoded = gunzip(&raw);
    choose_document(raw, decoded)
}

/// The bytes to store for a player document: its gzip stream, from which
/// the document is read back.
pub fn player_file_bytes(doc: &Vec<u8>) -> (r: Vec<u8>)
    ensures
        r@ == gzip_of(doc@),
        document_bytes(r@, gunzip_of(r@)) == doc@,
{
    match gzip(doc) {
        Some(c) => c,
        None => Vec::new(),
    }
}

} // verus!
