//! A document: the text as a rope, with the encoding it was read in and whether the
//! file began with a byte-order mark. Reading the file stays with the caller; the
//! library decides the encoding from the first bytes and decodes each chunk read.
use vstd::prelude::*;
use chardetng::EncodingDetector;
use encoding_rs::{CoderResult, Decoder, Encoding, UTF_8};
use vstd::string::StringExecFns;
use crate::transaction::ChangeSet;
use ropey::{Rope, RopeSlice};
use crate::text::{
    line_count, line_of_char, line_start, rope_full_slice, rope_text, slice_text, utf8_prefix_len,
};

verus! {

#[verifier::external_type_specification]
#[verifier::external_body]
pub struct ExEncoding(Encoding);

/// The name of an encoding, as `Encoding::name` gives it (`"UTF-8"`, `"windows-1252"`, ...).
pub uninterp spec fn encoding_name(e: &'static Encoding) -> Seq<char>;

/// The name of the encoding `chardetng` guesses for `bytes` (the whole input when
/// `last`), with UTF-8 allowed and no top-level domain.
pub uninterp spec fn guessed_name(bytes: Seq<u8>, last: bool) -> Seq<char>;

/// Whether `bytes` begin with the UTF-8 byte-order mark `EF BB BF`.
pub open spec fn utf8_bom(bytes: Seq<u8>) -> bool {
    bytes.len() >= 3 && bytes[0] == 0xEF && bytes[1] == 0xBB && bytes[2] == 0xBF
}

/// Whether `bytes` begin with the UTF-16LE byte-order mark `FF FE`.
pub open spec fn utf16le_bom(bytes: Seq<u8>) -> bool {
    bytes.len() >= 2 && bytes[0] == 0xFF && bytes[1] == 0xFE
}

/// Whether `bytes` begin with the UTF-16BE byte-order mark `FE FF`.
pub open spec fn utf16be_bom(bytes: Seq<u8>) -> bool {
    bytes.len() >= 2 && bytes[0] == 0xFE && bytes[1] == 0xFF
}

/// Whether `bytes` begin with the byte-order mark of UTF-8, UTF-16LE or UTF-16BE.
pub open spec fn starts_with_bom(bytes: Seq<u8>) -> bool {
    utf8_bom(bytes) || utf16le_bom(bytes) || utf16be_bom(bytes)
}

/// `Encoding::for_bom`: the encoding whose byte-order mark `bytes` begin with (the
/// mark's length is dropped): UTF-8, UTF-16LE or UTF-16BE; `None` when they begin
/// with none.
#[verifier::external_body]
fn bom_encoding(bytes: &[u8]) -> (r: Option<&'static Encoding>)
    ensures
        r is Some <==> starts_with_bom(bytes@),
        utf8_bom(bytes@) ==> r is Some && encoding_name(r.unwrap()) == "UTF-8"@,
        utf16le_bom(bytes@) ==> r is Some && encoding_name(r.unwrap()) == "UTF-16LE"@,
        utf16be_bom(bytes@) ==> r is Some && encoding_name(r.unwrap()) == "UTF-16BE"@,
{
    Encoding::for_bom(bytes).map(|(encoding, _)| encoding)
}

/// `chardetng::EncodingDetector`: fed `bytes` (the whole input when `last`), its
/// guess with UTF-8 allowed and no top-level domain. Which encoding that is, is named.
#[verifier::external_body]
fn guess_encoding(bytes: &[u8], last: bool) -> (r: &'static Encoding)
    ensures
        encoding_name(r) == guessed_name(bytes@, last),
{
    let mut detector = EncodingDetector::new();
    detector.feed(bytes, last);
    detector.guess(None, true)
}

/// `encoding_rs::UTF_8`, the encoding named `"UTF-8"`.
#[verifier::external_body]
fn utf8_encoding() -> (r: &'static Encoding)
    ensures
        encoding_name(r) == "UTF-8"@,
{
    UTF_8
}

/// `enc` and `bom` are the encoding a file is read in, and whether it begins with a
/// byte-order mark, for first bytes `first`: an `encoding` asked for wins (no mark is
/// looked for); else a mark decides; else the encoding is guessed from the bytes.
pub open spec fn detected(
    first: Seq<u8>,
    encoding: Option<&'static Encoding>,
    enc: &'static Encoding,
    bom: bool,
) -> bool {
    &&& encoding matches Some(e) ==> enc == e && !bom
    &&& encoding is None ==> bom == starts_with_bom(first)
    &&& encoding is None && utf8_bom(first) ==> encoding_name(enc) == "UTF-8"@
    &&& encoding is None && utf16le_bom(first) ==> encoding_name(enc) == "UTF-16LE"@
    &&& encoding is None && utf16be_bom(first) ==> encoding_name(enc) == "UTF-16BE"@
    &&& encoding is None && !starts_with_bom(first) ==> encoding_name(enc) == guessed_name(
        first,
        first.len() == 0,
    )
}

/// The encoding a file is read in, and whether it begins with a byte-order mark, from
/// its first bytes.
pub fn detect_encoding(first: &[u8], encoding: Option<&'static Encoding>) -> (r: (
    &'static Encoding,
    bool,
))
    ensures
        detected(first@, encoding, r.0, r.1),
{
    match encoding {
        Some(e) => (e, false),
        None => match bom_encoding(first) {
            Some(e) => (e, true),
            None => (guess_encoding(first, first.len() == 0), false),
        },
    }
}

#[verifier::external_type_specification]
#[verifier::external_body]
pub struct ExDecoder(Decoder);

/// What a decoder is: the encoding it was made for, the bytes fed to it so far, and
/// whether it has reached the end of its input. What it has written so far is the
/// decoding of those bytes (`decoded`); the encoding it may switch to on a byte-order
/// mark follows from the two.
pub uninterp spec fn decoder_state(d: Decoder) -> (&'static Encoding, Seq<u8>, bool);

/// The text a decoder from `Encoding::new_decoder` for `enc` writes for `bytes`, with
/// malformed sequences replaced; a byte-order mark of UTF-8, UTF-16LE or UTF-16BE at
/// the start is taken out and that encoding decodes the rest. When `last`, all of it,
/// the end of the input having been reached; else what those bytes already decide, an
/// incomplete sequence at their end held back.
pub uninterp spec fn decoded(enc: &'static Encoding, bytes: Seq<u8>, last: bool) -> Seq<char>;

/// `Encoding::new_decoder`: a decoder for `encoding` that has been fed nothing, and so
/// has written nothing.
#[verifier::external_body]
fn new_decoder(encoding: &'static Encoding) -> (d: Decoder)
    ensures
        decoder_state(d) == (encoding, Seq::<u8>::empty(), false),
        decoded(decoder_state(d).0, decoder_state(d).1, false) == Seq::<char>::empty(),
{
    encoding.new_decoder()
}

/// How a decoding call ended: all its input was read, or its output buffer filled up.
#[derive(Clone, Copy, PartialEq, Eq, Debug, Structural)]
pub enum DecodeStatus {
    InputEmpty,
    OutputFull,
}

/// The room each decoded piece is given, in bytes.
pub const PIECE_CAPACITY: usize = 8192;

/// `Decoder::decode_to_string`, writing into a new `String` with room for `capacity`
/// bytes: decodes `src` (the end of the stream when `last` and all of it is read) and
/// returns how the call ended, how many bytes of `src` it read, and the text it wrote.
/// It reads all of `src` unless the output filled up. Several kilobytes hold far more
/// than one char's output plus what the decoder held back from earlier input, so
/// output that filled up means input was read. The bytes read join those fed before,
/// the stream ends when `last` and all was read, and the text written is what those
/// bytes add to the decoding. The decoder must not have reached its end.
#[verifier::external_body]
fn decode_to_string(decoder: &mut Decoder, src: &[u8], capacity: usize, last: bool) -> (r: (
    DecodeStatus,
    usize,
    String,
))
    requires
        capacity >= 4096,
        !decoder_state(*old(decoder)).2,
    ensures
        r.1 <= src@.len(),
        r.0 == DecodeStatus::InputEmpty ==> r.1 == src@.len(),
        r.0 == DecodeStatus::OutputFull ==> r.1 > 0,
        decoder_state(*final(decoder)) == (
            decoder_state(*old(decoder)).0,
            decoder_state(*old(decoder)).1 + src@.take(r.1 as int),
            last && r.0 == DecodeStatus::InputEmpty,
        ),
        decoded(decoder_state(*old(decoder)).0, decoder_state(*old(decoder)).1, false) + r.2@
            == decoded(
            decoder_state(*final(decoder)).0,
            decoder_state(*final(decoder)).1,
            decoder_state(*final(decoder)).2,
        ),
{
    let mut dst = String::with_capacity(capacity);
    let (result, read, _) = decoder.decode_to_string(src, &mut dst, last);
    match result {
        CoderResult::InputEmpty => (DecodeStatus::InputEmpty, read, dst),
        CoderResult::OutputFull => (DecodeStatus::OutputFull, read, dst),
    }
}

/// Decodes all of `chunk` with `decoder` (`last`: the chunk ends the input), pushing
/// the text onto `out` one piece per decoding call: the pieces pushed are what the
/// chunk adds to the decoding of the bytes fed before. What came before in `out`
/// stays. The decoder must not have reached its end.
pub fn decode_chunk(decoder: &mut Decoder, chunk: &[u8], last: bool, out: &mut Vec<String>)
    requires
        !decoder_state(*old(decoder)).2,
    ensures
        decoder_state(*final(decoder)) == (
            decoder_state(*old(decoder)).0,
            decoder_state(*old(decoder)).1 + chunk@,
            last,
        ),
        final(out)@.len() > old(out)@.len(),
        final(out)@.take(old(out)@.len() as int) == old(out)@,
        decoded(decoder_state(*old(decoder)).0, decoder_state(*old(decoder)).1, false) + joined(
            final(out)@.skip(old(out)@.len() as int),
        ) == decoded(decoder_state(*old(decoder)).0, decoder_state(*old(decoder)).1 + chunk@, last),
{
    let ghost enc = decoder_state(*decoder).0;
    let ghost fed = decoder_state(*decoder).1;
    let ghost n0 = out@.len();
    let mut total_read: usize = 0;
    proof {
        assert(out@.skip(n0 as int) =~= Seq::<String>::empty());
        assert(chunk@.take(0) =~= Seq::<u8>::empty());
        assert(fed + chunk@.take(0) =~= fed);
    }
    loop
        invariant_except_break
            decoder_state(*decoder) == (enc, fed + chunk@.take(total_read as int), false),
            decoded(enc, fed, false) + joined(out@.skip(n0 as int)) == decoded(
                enc,
                fed + chunk@.take(total_read as int),
                false,
            ),
        invariant
            total_read <= chunk@.len(),
            enc == decoder_state(*old(decoder)).0,
            fed == decoder_state(*old(decoder)).1,
            n0 == old(out)@.len(),
            out@.len() >= n0,
            out@.take(n0 as int) == old(out)@,
        ensures
            decoder_state(*decoder) == (enc, fed + chunk@, last),
            out@.len() > n0,
            out@.take(n0 as int) == old(out)@,
            decoded(enc, fed, false) + joined(out@.skip(n0 as int)) == decoded(enc, fed + chunk@, last),
        decreases chunk@.len() - total_read,
    {
        let rest = vstd::slice::slice_subrange(chunk, total_read, chunk.len());
        let (status, read, piece) = decode_to_string(decoder, rest, PIECE_CAPACITY, last);
        let ghost before = out@;
        out.push(piece);
        proof {
            assert(out@.take(n0 as int) =~= before.take(n0 as int));
            assert(out@.skip(n0 as int) =~= before.skip(n0 as int).push(piece));
            assert(out@.skip(n0 as int).drop_last() =~= before.skip(n0 as int));
            assert(chunk@.take(total_read as int) + rest@.take(read as int) =~= chunk@.take(
                total_read + read,
            ));
            assert(fed + chunk@.take(total_read as int) + rest@.take(read as int) =~= fed
                + chunk@.take(total_read + read));
        }
        total_read = total_read + read;
        match status {
            DecodeStatus::InputEmpty => {
                proof {
                    assert(chunk@.take(total_read as int) =~= chunk@);
                }
                break;
            },
            DecodeStatus::OutputFull => {},
        }
    }
}

/// The pieces' texts one after another.
pub open spec fn joined(pieces: Seq<String>) -> Seq<char>
    decreases pieces.len(),
{
    if pieces.len() == 0 {
        Seq::empty()
    } else {
        joined(pieces.drop_last()) + pieces.last()@
    }
}

/// The pieces' texts, once more pieces follow.
proof fn lemma_joined_append(a: Seq<String>, b: Seq<String>)
    ensures
        joined(a + b) == joined(a) + joined(b),
    decreases b.len(),
{
    if b.len() == 0 {
        assert(a + b =~= a);
        assert(joined(b) =~= Seq::<char>::empty());
        assert(joined(a) + joined(b) =~= joined(a));
    } else {
        assert((a + b).drop_last() =~= a + b.drop_last());
        assert((a + b).last() == b.last());
        lemma_joined_append(a, b.drop_last());
        assert(joined(a) + joined(b.drop_last()) + b.last()@ =~= joined(a) + (joined(b.drop_last())
            + b.last()@));
    }
}

/// A file being read chunk by chunk: the encoding picked from its first bytes, whether
/// they held a byte-order mark, and the text decoded so far.
pub struct DocumentReader {
    decoder: Decoder,
    pieces: Vec<String>,
    encoding: &'static Encoding,
    has_bom: bool,
    done: bool,
}

impl DocumentReader {
    /// The bytes read so far.
    pub closed spec fn fed(&self) -> Seq<u8> {
        decoder_state(self.decoder).1
    }

    /// Whether the end of the file was reached.
    pub closed spec fn ended(&self) -> bool {
        self.done
    }

    /// The encoding the file is read in.
    pub closed spec fn encoding_of(&self) -> &'static Encoding {
        self.encoding
    }

    /// Whether the file began with a byte-order mark.
    pub closed spec fn bom(&self) -> bool {
        self.has_bom
    }

    /// The decoder belongs to the encoding and has ended with the file, and the pieces
    /// hold the decoding of the bytes read so far.
    pub closed spec fn wf(&self) -> bool {
        &&& decoder_state(self.decoder).0 == self.encoding
        &&& decoder_state(self.decoder).2 == self.done
        &&& joined(self.pieces@) == decoded(self.encoding, self.fed(), self.done)
    }

    /// Starts reading a file whose first bytes are `first` (the whole file when there are
    /// none): picks the encoding, with `encoding` asked for, and decodes those bytes.
    pub fn start(first: &[u8], encoding: Option<&'static Encoding>) -> (r: Self)
        ensures
            r.wf(),
            detected(first@, encoding, r.encoding_of(), r.bom()),
            r.fed() == first@,
            r.ended() == (first@.len() == 0),
    {
        let (enc, has_bom) = detect_encoding(first, encoding);
        let mut decoder = new_decoder(enc);
        let mut pieces: Vec<String> = Vec::new();
        let last = first.len() == 0;
        decode_chunk(&mut decoder, first, last, &mut pieces);
        proof {
            assert(pieces@.skip(0) =~= pieces@);
            assert(Seq::<u8>::empty() + first@ =~= first@);
            assert(Seq::<char>::empty() + joined(pieces@) =~= joined(pieces@));
        }
        DocumentReader { decoder, pieces, encoding: enc, has_bom, done: last }
    }

    /// Whether the end of the file was reached.
    pub fn is_done(&self) -> (b: bool)
        ensures
            b == self.ended(),
    {
        self.done
    }

    /// Decodes the next bytes of the file, `chunk`; an empty chunk is the end of the file.
    pub fn read(&mut self, chunk: &[u8])
        requires
            old(self).wf(),
            !old(self).ended(),
        ensures
            final(self).wf(),
            final(self).fed() == old(self).fed() + chunk@,
            final(self).ended() == (chunk@.len() == 0),
            final(self).encoding_of() == old(self).encoding_of(),
            final(self).bom() == old(self).bom(),
    {
        let last = chunk.len() == 0;
        let ghost before = self.pieces@;
        decode_chunk(&mut self.decoder, chunk, last, &mut self.pieces);
        proof {
            let added = self.pieces@.skip(before.len() as int);
            assert(self.pieces@ =~= before + added);
            lemma_joined_append(before, added);
        }
        self.done = last;
    }

    /// The document read, once the end of the file was reached: the decoding of all the
    /// bytes read, in the encoding picked, with the mark noted.
    pub fn finish(self) -> (d: Document)
        requires
            self.wf(),
            self.ended(),
        ensures
            d.text() == decoded(self.encoding_of(), self.fed(), true),
            d.encoding_of() == self.encoding_of(),
            d.bom() == self.bom(),
    {
        Document::from_pieces(&self.pieces, self.encoding, self.has_bom)
    }
}

#[derive(Clone)]
pub struct Document {
    rope: Rope,
    encoding: &'static Encoding,
    has_bom: bool,
}

impl Document {
    /// The chars of the document.
    pub closed spec fn text(&self) -> Seq<char> {
        rope_text(self.rope)
    }

    /// The encoding the document was read in.
    pub closed spec fn encoding_of(&self) -> &'static Encoding {
        self.encoding
    }

    /// Whether the file began with a byte-order mark.
    pub closed spec fn bom(&self) -> bool {
        self.has_bom
    }

    /// A document of the decoded `rope`, read in `encoding`.
    pub fn new(rope: Rope, encoding: &'static Encoding, has_bom: bool) -> (d: Document)
        ensures
            d.text() == rope_text(rope),
            d.encoding_of() == encoding,
            d.bom() == has_bom,
    {
        Document { rope, encoding, has_bom }
    }

    /// A document of the decoded `pieces`, one after another, read in `encoding`.
    pub fn from_pieces(pieces: &Vec<String>, encoding: &'static Encoding, has_bom: bool) -> (d:
        Document)
        ensures
            d.text() == joined(pieces@),
            d.encoding_of() == encoding,
            d.bom() == has_bom,
    {
        let mut text = String::new();
        let mut i: usize = 0;
        while i < pieces.len()
            invariant
                0 <= i <= pieces@.len(),
                text@ == joined(pieces@.subrange(0, i as int)),
            decreases pieces@.len() - i,
        {
            proof {
                assert(pieces@.subrange(0, i + 1).drop_last() =~= pieces@.subrange(0, i as int));
            }
            text.append(pieces[i].as_str());
            i = i + 1;
        }
        proof {
            assert(pieces@.subrange(0, pieces@.len() as int) =~= pieces@);
        }
        Document { rope: Rope::from_str(text.as_str()), encoding, has_bom }
    }

    /// Applies `cs` to the text when it was made for a text of this length, and says
    /// whether it did; the encoding and the mark stay.
    pub fn apply(&mut self, cs: &ChangeSet) -> (applied: bool)
        requires
            cs.wf(),
        ensures
            applied == (old(self).text().len() == cs.len),
            applied ==> final(self).text() == cs.apply_to(old(self).text()),
            !applied ==> final(self).text() == old(self).text(),
            final(self).encoding_of() == old(self).encoding_of(),
            final(self).bom() == old(self).bom(),
    {
        cs.apply(&mut self.rope)
    }

    /// The document for a file that does not exist yet: one empty line, in `encoding`
    /// (UTF-8 when none is asked for), without a byte-order mark.
    pub fn new_buffer(encoding: Option<&'static Encoding>) -> (d: Document)
        ensures
            d.text() == seq!['\n'],
            encoding matches Some(e) ==> d.encoding_of() == e,
            encoding is None ==> encoding_name(d.encoding_of()) == "UTF-8"@,
            !d.bom(),
    {
        let encoding = match encoding {
            Some(e) => e,
            None => utf8_encoding(),
        };
        let rope = Rope::from_str("\n");
        proof {
            reveal_strlit("\n");
        }
        Document { rope, encoding, has_bom: false }
    }

    pub fn rope(&self) -> (r: &Rope)
        ensures
            rope_text(*r) == self.text(),
    {
        &self.rope
    }

    pub fn has_bom(&self) -> (b: bool)
        ensures
            b == self.bom(),
    {
        self.has_bom
    }

    pub fn encoding(&self) -> (e: &'static Encoding)
        ensures
            e == self.encoding_of(),
    {
        self.encoding
    }

    /// The number of lines, one more than the line breaks.
    pub fn line_count(&self) -> (n: usize)
        ensures
            n == line_count(self.text()),
    {
        rope_full_slice(&self.rope).len_lines()
    }

    /// Line `line_num`, its line break included; there must be such a line.
    pub fn line(&self, line_num: usize) -> (l: RopeSlice<'_>)
        requires
            line_num < line_count(self.text()),
        ensures
            slice_text(l) == self.text().subrange(
                line_start(self.text(), line_num as int),
                line_start(self.text(), line_num + 1),
            ),
    {
        rope_full_slice(&self.rope).line(line_num)
    }

    /// The line holding char `char_idx` (one past the end gives the last line).
    pub fn line_idx(&self, char_idx: usize) -> (l: usize)
        requires
            char_idx <= self.text().len(),
        ensures
            l == line_of_char(self.text(), char_idx as int),
            l < line_count(self.text()),
            line_start(self.text(), l as int) <= char_idx <= line_start(self.text(), l + 1),
    {
        rope_full_slice(&self.rope).char_to_line(char_idx)
    }

    /// The char index where line `char_idx` starts (one past the last line gives the
    /// end of the text).
    pub fn line_start(&self, char_idx: usize) -> (c: usize)
        requires
            char_idx <= line_count(self.text()),
        ensures
            c == line_start(self.text(), char_idx as int),
    {
        rope_full_slice(&self.rope).line_to_char(char_idx)
    }

    /// The byte offset of char `line_offset` within `line`.
    pub fn char_to_byte_in_line(&self, line_offset: usize, line: RopeSlice) -> (b: usize)
        requires
            line_offset <= slice_text(line).len(),
        ensures
            b == utf8_prefix_len(slice_text(line), line_offset as int),
    {
        line.char_to_byte(line_offset)
    }
}

} // verus!
