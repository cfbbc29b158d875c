//! Request bodies with a `Content-Encoding`: the listed codings are undone
//! in reverse order with flate2, brotli and zstd, under an output budget.
use vstd::prelude::*;

use crate::text::{
    ascii_lower_seq, ascii_lowercase, chars_of, is, owned, push_all, push_str, string_from, trim,
    trim_chars,
};

verus! {

/// Largest decoded body, in bytes.
pub const MAX_DECOMPRESSED_BODY_BYTES: usize = 536870912;

/// Name for what flate2's `GzDecoder` reads from the bytes: the decoded
/// bytes, or the text of the I/O error it stops on.
pub uninterp spec fn gzip_out(input: Seq<u8>) -> Result<Seq<u8>, Seq<char>>;

/// Name for what flate2's `ZlibDecoder` reads from the bytes.
pub uninterp spec fn zlib_out(input: Seq<u8>) -> Result<Seq<u8>, Seq<char>>;

/// Name for what flate2's `DeflateDecoder` (raw deflate) reads from the bytes.
pub uninterp spec fn deflate_out(input: Seq<u8>) -> Result<Seq<u8>, Seq<char>>;

/// Name for what brotli's `Decompressor` reads from the bytes.
pub uninterp spec fn brotli_out(input: Seq<u8>) -> Result<Seq<u8>, Seq<char>>;

/// Name for what zstd's stream `Decoder` reads from the bytes once created.
pub uninterp spec fn zstd_out(input: Seq<u8>) -> Result<Seq<u8>, Seq<char>>;

/// Reads `flate2::read::GzDecoder` over the bytes to the end.
#[verifier::external_body]
fn gzip_read(input: &[u8]) -> (r: Result<Vec<u8>, String>)
    ensures
        r matches Ok(v) ==> gzip_out(input@) is Ok && gzip_out(input@)->Ok_0 == v@,
        r matches Err(e) ==> gzip_out(input@) is Err && gzip_out(input@)->Err_0 == e@,
{
    let mut out = Vec::new();
    match std::io::Read::read_to_end(&mut flate2::read::GzDecoder::new(input), &mut out) {
        Ok(_) => Ok(out),
        Err(e) => Err(e.to_string()),
    }
}

/// Reads `flate2::read::ZlibDecoder` over the bytes to the end.
#[verifier::external_body]
fn zlib_read(input: &[u8]) -> (r: Result<Vec<u8>, String>)
    ensures
        r matches Ok(v) ==> zlib_out(input@) is Ok && zlib_out(input@)->Ok_0 == v@,
        r matches Err(e) ==> zlib_out(input@) is Err && zlib_out(input@)->Err_0 == e@,
{
    let mut out = Vec::new();
    match std::io::Read::read_to_end(&mut flate2::read::ZlibDecoder::new(input), &mut out) {
        Ok(_) => Ok(out),
        Err(e) => Err(e.to_string()),
    }
}

/// Reads `flate2::read::DeflateDecoder` over the bytes to the end.
#[verifier::external_body]
fn deflate_read(input: &[u8]) -> (r: Result<Vec<u8>, String>)
    ensures
        r matches Ok(v) ==> deflate_out(input@) is Ok && deflate_out(input@)->Ok_0 == v@,
        r matches Err(e) ==> deflate_out(input@) is Err && deflate_out(input@)->Err_0 == e@,
{
    let mut out = Vec::new();
    match std::io::Read::read_to_end(&mut flate2::read::DeflateDecoder::new(input), &mut out) {
        Ok(_) => Ok(out),
        Err(e) => Err(e.to_string()),
    }
}

/// Reads `brotli::Decompressor` (4096-byte buffer) over the bytes to the end.
#[verifier::external_body]
fn brotli_read(input: &[u8]) -> (r: Result<Vec<u8>, String>)
    ensures
        r matches Ok(v) ==> brotli_out(input@) is Ok && brotli_out(input@)->Ok_0 == v@,
        r matches Err(e) ==> brotli_out(input@) is Err && brotli_out(input@)->Err_0 == e@,
{
    let mut out = Vec::new();
    match std::io::Read::read_to_end(&mut brotli::Decompressor::new(input, 4096), &mut out) {
        Ok(_) => Ok(out),
        Err(e) => Err(e.to_string()),
    }
}

/// How a zstd read ended.
pub enum ZstdRead {
    Decoded(Vec<u8>),
    /// `zstd::stream::read::Decoder::new` failed (its context could not be
    /// created); the text of its error.
    InitFailed(String),
    ReadFailed(String),
}

/// Creates `zstd::stream::read::Decoder` over the bytes and reads it to the
/// end. Whether the decoder can be created rests on the machine (memory);
/// once created, what it reads is named by `zstd_out`.
#[verifier::external_body]
fn zstd_read(input: &[u8]) -> (r: ZstdRead)
    ensures
        r matches ZstdRead::Decoded(v) ==> zstd_out(input@) is Ok && zstd_out(input@)->Ok_0 == v@,
        r matches ZstdRead::ReadFailed(e) ==> zstd_out(input@) is Err && zstd_out(input@)->Err_0 == e@,
{
    let mut out = Vec::new();
    match zstd::stream::read::Decoder::new(input) {
        Err(e) => ZstdRead::InitFailed(e.to_string()),
        Ok(mut d) => match std::io::Read::read_to_end(&mut d, &mut out) {
            Ok(_) => ZstdRead::Decoded(out),
            Err(e) => ZstdRead::ReadFailed(e.to_string()),
        },
    }
}

/// The first `MAX + 1` bytes: the decoders read no further.
pub open spec fn limited(input: Seq<u8>) -> Seq<u8> {
    if input.len() <= MAX_DECOMPRESSED_BODY_BYTES + 1 {
        input
    } else {
        input.take(MAX_DECOMPRESSED_BODY_BYTES + 1)
    }
}

pub open spec fn with_prefix(r: Result<Seq<u8>, Seq<char>>, prefix: Seq<char>) -> Result<Seq<u8>, Seq<char>> {
    match r {
        Ok(v) => Ok(v),
        Err(e) => Err(prefix + e),
    }
}

/// Undoing one coding. `deflate` tries the zlib container first and raw
/// deflate when that fails. A result over the budget is refused.
pub open spec fn decode_one(input: Seq<u8>, enc: Seq<char>) -> Result<Seq<u8>, Seq<char>> {
    let inp = limited(input);
    let out = if enc == "gzip"@ || enc == "x-gzip"@ {
        with_prefix(gzip_out(inp), "gzip decode failed: "@)
    } else if enc == "deflate"@ {
        match zlib_out(inp) {
            Ok(v) => Ok(v),
            Err(_) => with_prefix(deflate_out(inp), "deflate decode failed: "@),
        }
    } else if enc == "br"@ {
        with_prefix(brotli_out(inp), "brotli decode failed: "@)
    } else if enc == "zstd"@ || enc == "zst"@ {
        with_prefix(zstd_out(inp), "zstd decode failed: "@)
    } else {
        Err("unsupported content-encoding: "@ + enc + " (supported: gzip, deflate, br, zstd)"@)
    };
    match out {
        Ok(v) => if v.len() > MAX_DECOMPRESSED_BODY_BYTES {
            Err("decompressed body exceeds 536870912 bytes limit"@)
        } else {
            Ok(v)
        },
        Err(e) => Err(e),
    }
}

/// The pieces of `s` between commas (`str::split(',')`).
pub open spec fn split_commas(s: Seq<char>) -> Seq<Seq<char>>
    decreases s.len(),
{
    if s.len() == 0 {
        seq![Seq::empty()]
    } else {
        let p = split_commas(s.drop_last());
        if s.last() == ',' {
            p.push(Seq::empty())
        } else if p.len() > 0 {
            p.update(p.len() - 1, p.last().push(s.last()))
        } else {
            p
        }
    }
}

/// The trimmed pieces that are not empty, in order.
pub open spec fn kept_codings(ps: Seq<Seq<char>>) -> Seq<Seq<char>>
    decreases ps.len(),
{
    if ps.len() == 0 {
        Seq::empty()
    } else {
        let r = kept_codings(ps.drop_last());
        if trim(ps.last()).len() > 0 {
            r.push(trim(ps.last()))
        } else {
            r
        }
    }
}

/// Undoing the codings from the last to the first.
pub open spec fn decode_all(data: Seq<u8>, encs: Seq<Seq<char>>) -> Result<Seq<u8>, Seq<char>>
    decreases encs.len(),
{
    if encs.len() == 0 {
        Ok(data)
    } else {
        match decode_one(data, encs.last()) {
            Ok(d) => decode_all(d, encs.drop_last()),
            Err(e) => Err(e),
        }
    }
}

/// The codings named by a `Content-Encoding` value, in order: none when it
/// is absent, blank or `identity`; else its comma-separated pieces, trimmed
/// and ASCII-lowercased, empty ones left out.
pub open spec fn codings(content_encoding: Option<Seq<char>>) -> Seq<Seq<char>> {
    match content_encoding {
        None => Seq::empty(),
        Some(c) => {
            let enc = ascii_lower_seq(trim(c));
            if enc.len() == 0 || enc == "identity"@ {
                Seq::empty()
            } else {
                kept_codings(split_commas(enc))
            }
        },
    }
}

/// Whether zstd is one of the codings to undo.
pub open spec fn needs_zstd(cs: Seq<Seq<char>>) -> bool {
    cs.contains("zstd"@) || cs.contains("zst"@)
}

/// A decoding result as plain values.
pub open spec fn result_v(r: Result<Vec<u8>, String>) -> Result<Seq<u8>, Seq<char>> {
    match r {
        Ok(v) => Ok(v@),
        Err(e) => Err(e@),
    }
}

/// The decoded body: unchanged without a coding (absent, blank, `identity`
/// or only commas); otherwise the comma-separated codings (trimmed, ASCII
/// lowercased) undone in reverse order.
pub open spec fn decompressed(body: Seq<u8>, content_encoding: Option<Seq<char>>) -> Result<Seq<u8>, Seq<char>> {
    match content_encoding {
        None => Ok(body),
        Some(c) => {
            let enc = ascii_lower_seq(trim(c));
            if enc.len() == 0 || enc == "identity"@ {
                Ok(body)
            } else {
                let cs = kept_codings(split_commas(enc));
                if cs.len() == 0 {
                    Ok(body)
                } else {
                    decode_all(body, cs)
                }
            }
        },
    }
}

proof fn lemma_split_nonempty(s: Seq<char>)
    ensures
        split_commas(s).len() > 0,
    decreases s.len(),
{
    if s.len() > 0 {
        lemma_split_nonempty(s.drop_last());
    }
}

fn split_commas_exec(v: &[char]) -> (r: Vec<Vec<char>>)
    ensures
        r@.map_values(|w: Vec<char>| w@) == split_commas(v@),
{
    let mut done: Vec<Vec<char>> = Vec::new();
    let mut cur: Vec<char> = Vec::new();
    let mut i: usize = 0;
    assert(split_commas(v@.take(0)) =~= seq![Seq::<char>::empty()]);
    assert(done@.map_values(|w: Vec<char>| w@).push(cur@) =~= seq![Seq::<char>::empty()]);
    while i < v.len()
        invariant
            i <= v@.len(),
            done@.map_values(|w: Vec<char>| w@).push(cur@) == split_commas(v@.take(i as int)),
        decreases v@.len() - i,
    {
        proof {
            assert(v@.take(i + 1).drop_last() =~= v@.take(i as int));
            assert(v@.take(i + 1).last() == v@[i as int]);
            lemma_split_nonempty(v@.take(i as int));
        }
        let ghost before = done@.map_values(|w: Vec<char>| w@);
        let ghost c0 = cur@;
        if v[i] == ',' {
            let finished = cur;
            cur = Vec::new();
            done.push(finished);
            assert(done@.map_values(|w: Vec<char>| w@) =~= before.push(c0));
            assert(done@.map_values(|w: Vec<char>| w@).push(cur@) =~= before.push(c0).push(
                Seq::<char>::empty(),
            ));
        } else {
            cur.push(v[i]);
            assert(done@.map_values(|w: Vec<char>| w@).push(cur@) =~= before.push(c0).update(
                before.len() as int,
                c0.push(v@[i as int]),
            ));
        }
        i = i + 1;
    }
    assert(v@.take(v@.len() as int) =~= v@);
    let ghost before = done@.map_values(|w: Vec<char>| w@);
    let ghost c0 = cur@;
    done.push(cur);
    assert(done@.map_values(|w: Vec<char>| w@) =~= before.push(c0));
    done
}

pub(crate) fn codings_of(enc: &[char]) -> (r: Vec<Vec<char>>)
    ensures
        r@.map_values(|w: Vec<char>| w@) == kept_codings(split_commas(enc@)),
{
    let ps = split_commas_exec(enc);
    let ghost pv = ps@.map_values(|w: Vec<char>| w@);
    let mut out: Vec<Vec<char>> = Vec::new();
    let mut i: usize = 0;
    while i < ps.len()
        invariant
            i <= ps@.len(),
            pv == ps@.map_values(|w: Vec<char>| w@),
            out@.map_values(|w: Vec<char>| w@) == kept_codings(pv.take(i as int)),
        decreases ps@.len() - i,
    {
        proof {
            assert(pv.take(i + 1).drop_last() =~= pv.take(i as int));
            assert(pv.take(i + 1).last() == ps@[i as int]@);
        }
        let t = trim_chars(ps[i].as_slice());
        if t.len() > 0 {
            let ghost before = out@.map_values(|w: Vec<char>| w@);
            let ghost tv = t@;
            out.push(t);
            assert(out@.map_values(|w: Vec<char>| w@) =~= before.push(tv));
        }
        i = i + 1;
    }
    assert(pv.take(ps@.len() as int) =~= pv);
    out
}

fn prefixed(prefix: &str, e: &String) -> (r: String)
    ensures
        r@ == prefix@ + e@,
{
    let mut v = chars_of(prefix);
    push_all(&mut v, chars_of(e.as_str()).as_slice());
    string_from(v.as_slice())
}

/// Undoes one coding (see `decode_one`). For a coding other than zstd the
/// result is exactly `decode_one`; for zstd, an error that starts with
/// `zstd decode init failed: ` comes from a decoder that could not be
/// created.
pub fn decode_single_coding(input: &[u8], enc: &[char]) -> (r: Result<Vec<u8>, String>)
    ensures
        r matches Ok(v) ==> decode_one(input@, enc@) == Ok::<Seq<u8>, Seq<char>>(v@),
        r matches Err(e) ==> decode_one(input@, enc@) == Err::<Seq<u8>, Seq<char>>(e@) || (
        crate::text::has_prefix(e@, "zstd decode init failed: "@) && (enc@ == "zstd"@ || enc@
            == "zst"@)),
{
    let n = input.len();
    let lim: usize = if n <= MAX_DECOMPRESSED_BODY_BYTES + 1 {
        n
    } else {
        MAX_DECOMPRESSED_BODY_BYTES + 1
    };
    let mut inp: Vec<u8> = Vec::new();
    let mut i: usize = 0;
    while i < lim
        invariant
            i <= lim <= input@.len(),
            inp@ == input@.take(i as int),
        decreases lim - i,
    {
        inp.push(input[i]);
        i = i + 1;
        assert(inp@ =~= input@.take(i as int));
    }
    assert(inp@ =~= limited(input@));
    let out: Result<Vec<u8>, String> = if is(enc, "gzip") || is(enc, "x-gzip") {
        match gzip_read(inp.as_slice()) {
            Ok(v) => Ok(v),
            Err(e) => Err(prefixed("gzip decode failed: ", &e)),
        }
    } else if is(enc, "deflate") {
        match zlib_read(inp.as_slice()) {
            Ok(v) => Ok(v),
            Err(_) => match deflate_read(inp.as_slice()) {
                Ok(v) => Ok(v),
                Err(e) => Err(prefixed("deflate decode failed: ", &e)),
            },
        }
    } else if is(enc, "br") {
        match brotli_read(inp.as_slice()) {
            Ok(v) => Ok(v),
            Err(e) => Err(prefixed("brotli decode failed: ", &e)),
        }
    } else if is(enc, "zstd") || is(enc, "zst") {
        match zstd_read(inp.as_slice()) {
            ZstdRead::Decoded(v) => Ok(v),
            ZstdRead::ReadFailed(e) => Err(prefixed("zstd decode failed: ", &e)),
            ZstdRead::InitFailed(e) => {
                let m = prefixed("zstd decode init failed: ", &e);
                proof {
                    reveal_strlit("zstd decode init failed: ");
                    assert(m@.subrange(0, "zstd decode init failed: "@.len() as int) =~= "zstd decode init failed: "@);
                }
                return Err(m);
            },
        }
    } else {
        let mut v = chars_of("unsupported content-encoding: ");
        push_all(&mut v, enc);
        push_str(&mut v, " (supported: gzip, deflate, br, zstd)");
        Err(string_from(v.as_slice()))
    };
    match out {
        Ok(v) => if v.len() > MAX_DECOMPRESSED_BODY_BYTES {
            Err(owned("decompressed body exceeds 536870912 bytes limit"))
        } else {
            Ok(v)
        },
        Err(e) => Err(e),
    }
}

fn copy_bytes(b: &[u8]) -> (r: Vec<u8>)
    ensures
        r@ == b@,
{
    let mut v: Vec<u8> = Vec::new();
    let mut i: usize = 0;
    while i < b.len()
        invariant
            i <= b@.len(),
            v@ == b@.take(i as int),
        decreases b@.len() - i,
    {
        v.push(b[i]);
        i = i + 1;
        assert(v@ =~= b@.take(i as int));
    }
    assert(b@.take(b@.len() as int) =~= b@);
    v
}

/// Decodes a request body by its `Content-Encoding` (see `decompressed`).
/// Where no coding is zstd the result is exactly `decompressed`; otherwise
/// an error that starts with `zstd decode init failed: ` may come from a
/// zstd decoder that could not be created.
pub fn decompress_request_body(body: &[u8], content_encoding: Option<&str>) -> (r: Result<Vec<u8>, String>)
    ensures
        !needs_zstd(
            codings(
                match content_encoding {
                    Some(c) => Some(c@),
                    None => None,
                },
            ),
        ) ==> result_v(r) == decompressed(
            body@,
            match content_encoding {
                Some(c) => Some(c@),
                None => None,
            },
        ),
        r matches Ok(v) ==> decompressed(
            body@,
            match content_encoding {
                Some(c) => Some(c@),
                None => None,
            },
        ) == Ok::<Seq<u8>, Seq<char>>(v@),
        r matches Err(e) ==> decompressed(
            body@,
            match content_encoding {
                Some(c) => Some(c@),
                None => None,
            },
        ) == Err::<Seq<u8>, Seq<char>>(e@) || (crate::text::has_prefix(e@, "zstd decode init failed: "@)
            && needs_zstd(
            codings(
                match content_encoding {
                    Some(c) => Some(c@),
                    None => None,
                },
            ),
        )),
{
    let c = match content_encoding {
        Some(c) => c,
        None => return Ok(copy_bytes(body)),
    };
    let enc = ascii_lowercase(trim_chars(chars_of(c).as_slice()).as_slice());
    if enc.len() == 0 || is(enc.as_slice(), "identity") {
        return Ok(copy_bytes(body));
    }
    let cs = codings_of(enc.as_slice());
    let ghost cv = cs@.map_values(|w: Vec<char>| w@);
    if cs.len() == 0 {
        return Ok(copy_bytes(body));
    }
    let mut data = copy_bytes(body);
    let mut k: usize = cs.len();
    assert(cv.take(cs@.len() as int) =~= cv);
    assert(cv == codings(Some(c@)));
    assert(decompressed(body@, Some(c@)) == decode_all(body@, cv));
    while k > 0
        invariant
            k <= cs@.len(),
            cv == cs@.map_values(|w: Vec<char>| w@),
            decompressed(body@, Some(c@)) == decode_all(body@, cv),
            content_encoding == Some(c),
            cv == codings(Some(c@)),
            decode_all(body@, cv) == decode_all(data@, cv.take(k as int)),
        decreases k,
    {
        proof {
            assert(cv.take(k as int).drop_last() =~= cv.take(k - 1));
            assert(cv.take(k as int).last() == cs@[k - 1]@);
        }
        match decode_single_coding(data.as_slice(), cs[k - 1].as_slice()) {
            Ok(d) => {
                data = d;
            },
            Err(e) => {
                proof {
                    assert(cv[k - 1] == cs@[k - 1]@);
                    if cs@[k - 1]@ == "zstd"@ || cs@[k - 1]@ == "zst"@ {
                        assert(cv.contains(cs@[k - 1]@));
                    }
                }
                return Err(e);
            },
        }
        k = k - 1;
    }
    assert(cv.take(cs@.len() as int) =~= cv);
    Ok(data)
}

} // verus!
