//! Baking into PNG images: the badge marker is an `iTXt` chunk with the keyword
//! `openbadges`. Decoding and encoding are the work of the `png` crate; which text
//! chunks the new image holds is decided here.

use super::filter::lemma_filter_all;
use super::filter::lemma_filter_members;
use super::filter::lemma_filter_none;
use super::filter::lemma_filter_push;
use super::filter::lemma_filter_twice;
use super::PatcherError;
use vstd::prelude::*;
use vstd::string::StringExecFns;

verus! {

#[verifier::external_type_specification]
#[verifier::external_body]
pub struct ExInfo<'a>(png::Info<'a>);

#[verifier::external_type_specification]
#[verifier::external_body]
pub struct ExDecodingError(png::DecodingError);

#[verifier::external_type_specification]
#[verifier::external_body]
pub struct ExEncodingError(png::EncodingError);

/// A PNG image held in memory and opened for reading: a `png::Reader` past the
/// metadata that precedes the first frame.
#[verifier::external_body]
pub struct FrameReader {
    inner: png::Reader<std::io::Cursor<Vec<u8>>>,
}

/// Whether the decoder accepts the bytes as a PNG image, up to its first frame.
pub uninterp spec fn decodes(input: Seq<u8>) -> bool;

/// The reader that the decoder gives for a PNG image, past the metadata that precedes
/// the first frame.
pub uninterp spec fn png_reader(input: Seq<u8>) -> FrameReader;

/// The metadata that the decoder finds in a PNG image before its first frame.
pub uninterp spec fn png_info(input: Seq<u8>) -> png::Info<'static>;

/// The number of bytes that a frame of the image needs, if the machine can address
/// that many.
pub uninterp spec fn buffer_size(reader: FrameReader) -> Option<usize>;

/// What the metadata says of an animation, if the image is one: the number of its
/// frames, and whether the first image of the file is one of them.
pub uninterp spec fn animation_in(info: png::Info<'static>) -> Option<(u32, bool)>;

/// The `tEXt` chunks that the metadata holds, in order.
pub uninterp spec fn text_in(info: png::Info<'static>) -> Seq<ChunkView>;

/// The `zTXt` chunks that the metadata holds, in order, each with its text if that
/// can be decompressed.
pub uninterp spec fn compressed_text_in(info: png::Info<'static>) -> Seq<RawView>;

/// The `iTXt` chunks that the metadata holds, in order, each with its text if that
/// can be had.
pub uninterp spec fn international_text_in(info: png::Info<'static>) -> Seq<RawView>;

/// The metadata without its text chunks.
pub uninterp spec fn without_text(info: png::Info<'static>) -> png::Info<'static>;

/// The metadata with the interlacing flag set as given.
pub uninterp spec fn with_interlaced(info: png::Info<'static>, interlaced: bool) -> png::Info<
    'static,
>;

/// The frame that a reader decodes next into a buffer of `size` zero bytes, if it
/// can decode one.
pub uninterp spec fn frame_at(reader: FrameReader, size: int) -> Option<Seq<u8>>;

/// The reader after it was asked for its next frame with a buffer of `size` bytes.
pub uninterp spec fn reader_after(reader: FrameReader, size: int) -> FrameReader;

/// Whether the encoder makes an image of the metadata, the text chunks and the
/// frames.
pub uninterp spec fn encodes(
    seed: png::Info<'static>,
    text: PngTextView,
    frames: Seq<Seq<u8>>,
) -> bool;

/// The bytes of the image that the encoder makes of the metadata, the text chunks
/// and the frames.
pub uninterp spec fn encoded(
    seed: png::Info<'static>,
    text: PngTextView,
    frames: Seq<Seq<u8>>,
) -> Seq<u8>;

/// A text chunk of a PNG image: a keyword and the text filed under it.
#[derive(Debug, Clone)]
pub struct TextChunk {
    pub keyword: String,
    pub text: String,
}

/// A compressed or international text chunk as the decoder hands it out:
/// the text is there only if it could be decompressed and decoded.
pub struct RawChunk {
    pub keyword: String,
    pub text: Result<String, png::DecodingError>,
}

/// The text chunks of a PNG image, by kind and in file order.
#[derive(Debug, Clone)]
pub struct PngText {
    /// `tEXt`: uncompressed Latin-1.
    pub latin1: Vec<TextChunk>,
    /// `zTXt`: compressed Latin-1.
    pub compressed_latin1: Vec<TextChunk>,
    /// `iTXt`: UTF-8, the kind the badge marker has.
    pub utf8: Vec<TextChunk>,
}

/// A chunk as keyword and text.
pub type ChunkView = (Seq<char>, Seq<char>);

/// A chunk as keyword and text, where the text may have failed to decode.
pub type RawView = (Seq<char>, Option<Seq<char>>);

impl View for RawChunk {
    type V = RawView;

    open spec fn view(&self) -> RawView {
        (
            self.keyword@,
            match self.text {
                Ok(text) => Some(text@),
                Err(_) => None,
            },
        )
    }
}

/// Each chunk of `raw` as keyword and text.
pub open spec fn raw_views(raw: Seq<RawChunk>) -> Seq<RawView> {
    raw.map_values(|c: RawChunk| c@)
}

impl View for TextChunk {
    type V = ChunkView;

    open spec fn view(&self) -> ChunkView {
        (self.keyword@, self.text@)
    }
}

/// The text chunks of an image as plain sequences.
pub struct PngTextView {
    pub latin1: Seq<ChunkView>,
    pub compressed_latin1: Seq<ChunkView>,
    pub utf8: Seq<ChunkView>,
}

impl View for PngText {
    type V = PngTextView;

    open spec fn view(&self) -> PngTextView {
        PngTextView {
            latin1: views(self.latin1@),
            compressed_latin1: views(self.compressed_latin1@),
            utf8: views(self.utf8@),
        }
    }
}

/// Each chunk of `chunks` as keyword and text.
pub open spec fn views(chunks: Seq<TextChunk>) -> Seq<ChunkView> {
    chunks.map_values(|c: TextChunk| c@)
}

/// The keyword of the badge marker.
pub open spec fn marker_keyword() -> Seq<char> {
    "openbadges"@
}

/// Whether an `iTXt` chunk is a badge marker.
pub open spec fn is_marker(c: ChunkView) -> bool {
    c.0 == marker_keyword()
}

/// The chunks that are badge markers.
pub open spec fn markers(chunks: Seq<ChunkView>) -> Seq<ChunkView> {
    chunks.filter(|c: ChunkView| is_marker(c))
}

/// The chunks that are no badge markers.
pub open spec fn cargo(chunks: Seq<ChunkView>) -> Seq<ChunkView> {
    chunks.filter(|c: ChunkView| !is_marker(c))
}

/// Which chunks a bake with `verify` hands on: all but the markers that say something else.
pub open spec fn stays(verify: Seq<char>) -> spec_fn(ChunkView) -> bool {
    |c: ChunkView| !is_marker(c) || c.1 == verify
}

/// Whether some marker among `chunks` already carries `verify`.
pub open spec fn satisfied(chunks: Seq<ChunkView>, verify: Seq<char>) -> bool {
    exists|i: int| 0 <= i < chunks.len() && is_marker(#[trigger] chunks[i]) && chunks[i].1 == verify
}

/// The position of the first marker among `chunks` that carries something other than
/// `verify`, or the length of `chunks` if there is none.
pub open spec fn first_conflict(chunks: Seq<ChunkView>, verify: Seq<char>) -> int
    decreases chunks.len(),
{
    if chunks.len() == 0 {
        0
    } else if is_marker(chunks[0]) && chunks[0].1 != verify {
        0
    } else {
        1 + first_conflict(chunks.drop_first(), verify)
    }
}

/// The `iTXt` chunks after a bake that replaces what it finds: the chunks that stay,
/// in their order, and one new marker at the end unless a marker with `verify` stayed.
pub open spec fn baked_chunks(chunks: Seq<ChunkView>, verify: Seq<char>) -> Seq<ChunkView> {
    let kept = chunks.filter(stays(verify));
    if satisfied(chunks, verify) {
        kept
    } else {
        kept.push((marker_keyword(), verify))
    }
}

/// The payload of the first marker among `chunks` that carries something other than
/// `verify`, if there is one.
pub open spec fn conflict(chunks: Seq<ChunkView>, verify: Seq<char>) -> Option<Seq<char>> {
    let at = first_conflict(chunks, verify);
    if at < chunks.len() {
        Some(chunks[at].1)
    } else {
        None
    }
}

/// What baking `verify` into `chunks` gives: the new chunks, or the conflict.
pub open spec fn bake_text_result(
    chunks: Seq<ChunkView>,
    verify: Seq<char>,
    fail_if_verify_present: bool,
    r: Result<Vec<TextChunk>, PatcherError>,
) -> bool {
    match conflict(chunks, verify) {
        Some(found) if fail_if_verify_present => r matches Err(
            PatcherError::VerifyAlreadySet { present, proposed },
        ) && present@ == found && proposed@ == verify,
        _ => r matches Ok(out) && views(out@) == baked_chunks(chunks, verify),
    }
}

/// What baking `verify` into the text chunks of an image gives: only the `iTXt` chunks
/// change.
pub open spec fn bake_result(
    text: PngTextView,
    verify: Seq<char>,
    fail_if_verify_present: bool,
    r: Result<PngText, PatcherError>,
) -> bool {
    match conflict(text.utf8, verify) {
        Some(found) if fail_if_verify_present => r matches Err(
            PatcherError::VerifyAlreadySet { present, proposed },
        ) && present@ == found && proposed@ == verify,
        _ => r matches Ok(out) && out@ == (PngTextView {
            utf8: baked_chunks(text.utf8, verify),
            ..text
        }),
    }
}

/// A position before which no marker says anything but `verify`, and which is the end of
/// `chunks` or holds such a marker, is the first conflict.
proof fn lemma_first_conflict_is(chunks: Seq<ChunkView>, verify: Seq<char>, at: int)
    requires
        0 <= at <= chunks.len(),
        forall|j: int| 0 <= j < at ==> !(is_marker(#[trigger] chunks[j]) && chunks[j].1 != verify),
        at < chunks.len() ==> is_marker(chunks[at]) && chunks[at].1 != verify,
    ensures
        first_conflict(chunks, verify) == at,
    decreases chunks.len(),
{
    if chunks.len() > 0 && at > 0 {
        let rest = chunks.drop_first();
        assert forall|j: int| 0 <= j < at - 1 implies !(is_marker(#[trigger] rest[j]) && rest[j].1
            != verify) by {
            assert(rest[j] == chunks[j + 1]);
        }
        assert(!(is_marker(chunks[0]) && chunks[0].1 != verify));
        lemma_first_conflict_is(rest, verify, at - 1);
    }
}

/// The first conflict lies within `chunks` or at its end, no marker before it says
/// anything but `verify`, and the chunk at it, if any, is a marker that does.
pub proof fn lemma_first_conflict(chunks: Seq<ChunkView>, verify: Seq<char>)
    ensures
        0 <= first_conflict(chunks, verify) <= chunks.len(),
        forall|j: int|
            0 <= j < first_conflict(chunks, verify) ==> !(is_marker(#[trigger] chunks[j])
                && chunks[j].1 != verify),
        first_conflict(chunks, verify) < chunks.len() ==> is_marker(
            chunks[first_conflict(chunks, verify)],
        ) && chunks[first_conflict(chunks, verify)].1 != verify,
    decreases chunks.len(),
{
    if chunks.len() > 0 && !(is_marker(chunks[0]) && chunks[0].1 != verify) {
        let rest = chunks.drop_first();
        lemma_first_conflict(rest, verify);
        assert forall|j: int| 0 <= j < first_conflict(chunks, verify) implies !(is_marker(
            #[trigger] chunks[j],
        ) && chunks[j].1 != verify) by {
            if j > 0 {
                assert(chunks[j] == rest[j - 1]);
            }
        }
    }
}

/// Whether an image is marked with `payload`: it holds a marker, and each of its
/// markers carries `payload`.
pub open spec fn marked_with(chunks: Seq<ChunkView>, payload: Seq<char>) -> bool {
    &&& exists|i: int| 0 <= i < chunks.len() && is_marker(#[trigger] chunks[i])
    &&& forall|i: int| 0 <= i < chunks.len() && is_marker(#[trigger] chunks[i]) ==> chunks[i].1 == payload
}

/// What a bake hands back is marked with the payload that was baked.
pub proof fn law_baked_is_marked(chunks: Seq<ChunkView>, verify: Seq<char>)
    ensures
        marked_with(baked_chunks(chunks, verify), verify),
{
    let kept = chunks.filter(stays(verify));
    let once = baked_chunks(chunks, verify);
    lemma_filter_members(chunks, stays(verify));
    assert forall|i: int| 0 <= i < once.len() && is_marker(#[trigger] once[i]) implies once[i].1
        == verify by {
        if i < kept.len() {
            assert(once[i] == kept[i]);
            assert(stays(verify)(kept[i]));
        }
    }
    if satisfied(chunks, verify) {
        let k = choose|k: int|
            0 <= k < chunks.len() && is_marker(#[trigger] chunks[k]) && chunks[k].1 == verify;
        assert(stays(verify)(chunks[k]));
        assert(kept.contains(chunks[k]));
        let j = choose|j: int| 0 <= j < kept.len() && kept[j] == chunks[k];
        assert(is_marker(once[j]));
    } else {
        assert(is_marker(once[kept.len() as int]));
    }
}

/// Baking is idempotent: on what a bake of `verify` handed back, a second bake of the
/// same `verify` finds no conflict, even where conflicts are reported, and hands back
/// the same chunks. Each marker in them carries exactly `verify`, and there is one.
pub proof fn law_bake_is_idempotent(chunks: Seq<ChunkView>, verify: Seq<char>)
    ensures
        conflict(baked_chunks(chunks, verify), verify) is None,
        baked_chunks(baked_chunks(chunks, verify), verify) == baked_chunks(chunks, verify),
        marked_with(baked_chunks(chunks, verify), verify),
{
    let once = baked_chunks(chunks, verify);
    law_baked_is_marked(chunks, verify);
    lemma_first_conflict_is(once, verify, once.len() as int);
    lemma_filter_all(once, stays(verify));
    let k = choose|k: int| 0 <= k < once.len() && is_marker(#[trigger] once[k]);
    assert(is_marker(once[k]) && once[k].1 == verify);
    assert(satisfied(once, verify));
}

/// Baking preserves the cargo: the chunks that are no markers come out as they went
/// in, each with its keyword and text, in their order.
pub proof fn law_bake_preserves_cargo(chunks: Seq<ChunkView>, verify: Seq<char>)
    ensures
        cargo(baked_chunks(chunks, verify)) == cargo(chunks),
{
    let kept = chunks.filter(stays(verify));
    let no_marker = |c: ChunkView| !is_marker(c);
    lemma_filter_twice(chunks, stays(verify), no_marker);
    lemma_filter_push(kept, (marker_keyword(), verify), no_marker);
}

/// A conflict is detected: on an image marked with `present`, a bake of another payload
/// finds `present` in its way.
pub proof fn law_conflict_is_detected(
    chunks: Seq<ChunkView>,
    present: Seq<char>,
    proposed: Seq<char>,
)
    requires
        marked_with(chunks, present),
        present != proposed,
    ensures
        conflict(chunks, proposed) == Some(present),
{
    lemma_first_conflict(chunks, proposed);
    let k = choose|k: int| 0 <= k < chunks.len() && is_marker(#[trigger] chunks[k]);
    assert(is_marker(chunks[k]) && chunks[k].1 != proposed);
}

/// A bake that may replace does so: on an image marked with `present`, what a bake of
/// another payload hands back holds one marker, and it carries the new payload.
pub proof fn law_overwrite_replaces(chunks: Seq<ChunkView>, present: Seq<char>, proposed: Seq<char>)
    requires
        marked_with(chunks, present),
        present != proposed,
    ensures
        markers(baked_chunks(chunks, proposed)) == seq![(marker_keyword(), proposed)],
{
    let kept = chunks.filter(stays(proposed));
    let marker = |c: ChunkView| is_marker(c);
    lemma_filter_members(chunks, stays(proposed));
    assert forall|i: int| 0 <= i < kept.len() implies !marker(#[trigger] kept[i]) by {
        let x = kept[i];
        assert(stays(proposed)(x) && chunks.contains(x));
        let j = choose|j: int| 0 <= j < chunks.len() && chunks[j] == x;
        assert(is_marker(chunks[j]) ==> chunks[j].1 == present);
    }
    lemma_filter_none(kept, marker);
    assert(!satisfied(chunks, proposed));
    lemma_filter_push(kept, (marker_keyword(), proposed), marker);
    assert(Seq::<ChunkView>::empty().push((marker_keyword(), proposed)) == seq![
        (marker_keyword(), proposed),
    ]);
}

/// Bakes `verify` into a list of `iTXt` chunks.
///
/// Chunks with another keyword are handed on as they are. A marker that already
/// carries `verify` is handed on too, and then no marker is added. A marker that
/// carries anything else is a conflict if `fail_if_verify_present` is set; if not, it
/// is left out and a new marker with `verify` takes its place at the end.
pub fn bake_text(chunks: &Vec<TextChunk>, verify: &str, fail_if_verify_present: bool) -> (r: Result<
    Vec<TextChunk>,
    PatcherError,
>)
    ensures
        bake_text_result(views(chunks@), verify@, fail_if_verify_present, r),
{
    let marker = String::from_str("openbadges");
    let proposed = verify.to_owned();
    let ghost all = views(chunks@);
    let mut out: Vec<TextChunk> = Vec::new();
    let mut found = false;
    let mut i: usize = 0;
    assert(all.take(0) == Seq::<ChunkView>::empty());
    assert(views(out@) == all.take(0).filter(stays(verify@))) by {
        reveal(Seq::filter);
        assert(views(out@) == Seq::<ChunkView>::empty());
    }
    while i < chunks.len()
        invariant
            i <= chunks.len(),
            all == views(chunks@),
            marker@ == marker_keyword(),
            proposed@ == verify@,
            views(out@) == all.take(i as int).filter(stays(verify@)),
            found == satisfied(all.take(i as int), verify@),
            fail_if_verify_present ==> forall|j: int|
                0 <= j < i ==> !(is_marker(#[trigger] all[j]) && all[j].1 != verify@),
        decreases chunks.len() - i,
    {
        let chunk = &chunks[i];
        let ghost c = chunk@;
        let ghost before = all.take(i as int);
        assert(all[i as int] == c);
        assert(all.take(i + 1) == before.push(c));
        proof {
            lemma_filter_push(before, c, stays(verify@));
        }
        let mut keep = true;
        if chunk.keyword == marker {
            if chunk.text == proposed {
                found = true;
            } else if fail_if_verify_present {
                proof {
                    lemma_first_conflict_is(all, verify@, i as int);
                }
                return Err(
                    PatcherError::VerifyAlreadySet { present: chunk.text.clone(), proposed },
                );
            } else {
                keep = false;
            }
        }
        assert(keep == stays(verify@)(c));
        assert(found == satisfied(before.push(c), verify@)) by {
            let next = before.push(c);
            if satisfied(before, verify@) {
                let k = choose|k: int|
                    0 <= k < before.len() && is_marker(#[trigger] before[k]) && before[k].1
                        == verify@;
                assert(next[k] == before[k]);
            }
            if is_marker(c) && c.1 == verify@ {
                assert(next[i as int] == c);
            }
            if satisfied(next, verify@) {
                let k = choose|k: int|
                    0 <= k < next.len() && is_marker(#[trigger] next[k]) && next[k].1 == verify@;
                if k < before.len() {
                    assert(before[k] == next[k]);
                }
            }
        }
        if keep {
            let ghost old_out = views(out@);
            out.push(TextChunk { keyword: chunk.keyword.clone(), text: chunk.text.clone() });
            assert(views(out@) == old_out.push(c));
        }
        i = i + 1;
    }
    assert(all.take(i as int) == all);
    proof {
        if fail_if_verify_present {
            lemma_first_conflict_is(all, verify@, all.len() as int);
        }
    }
    if !found {
        let ghost old_out = views(out@);
        out.push(TextChunk { keyword: marker, text: proposed });
        assert(views(out@) == old_out.push((marker_keyword(), verify@)));
    }
    Ok(out)
}

/// Bakes `verify` into the text chunks of a PNG image.
///
/// The `tEXt` and `zTXt` chunks are handed on as they are, whatever their keywords;
/// the `iTXt` chunks are baked as [`bake_text`] says.
pub fn bake(text: PngText, verify: &str, fail_if_verify_present: bool) -> (r: Result<PngText, PatcherError>)
    ensures
        bake_result(text@, verify@, fail_if_verify_present, r),
{
    match bake_text(&text.utf8, verify, fail_if_verify_present) {
        Ok(utf8) => Ok(
            PngText { latin1: text.latin1, compressed_latin1: text.compressed_latin1, utf8 },
        ),
        Err(e) => Err(e),
    }
}

/// The position of the first chunk of `raw` whose text could not be decoded, or the
/// length of `raw` if there is none.
pub open spec fn first_failure(raw: Seq<RawView>) -> int
    decreases raw.len(),
{
    if raw.len() == 0 {
        0
    } else if raw[0].1 is None {
        0
    } else {
        1 + first_failure(raw.drop_first())
    }
}

/// The chunks before the first whose text could not be decoded, each as keyword and
/// text.
pub open spec fn decodable(raw: Seq<RawView>) -> Seq<ChunkView> {
    raw.take(first_failure(raw)).map_values(|c: RawView| (c.0, c.1->0))
}

proof fn lemma_first_failure_is(raw: Seq<RawView>, at: int)
    requires
        0 <= at <= raw.len(),
        forall|j: int| 0 <= j < at ==> (#[trigger] raw[j]).1 is Some,
        at < raw.len() ==> raw[at].1 is None,
    ensures
        first_failure(raw) == at,
    decreases raw.len(),
{
    if raw.len() > 0 && at > 0 {
        let rest = raw.drop_first();
        assert forall|j: int| 0 <= j < at - 1 implies (#[trigger] rest[j]).1 is Some by {
            assert(rest[j] == raw[j + 1]);
        }
        assert(raw[0].1 is Some);
        lemma_first_failure_is(rest, at - 1);
    }
}

/// Splits what the decoder handed out at the first chunk whose text could not be
/// decoded: the chunks before it, decoded, and the failure, if there was one.
fn decoded_prefix(raw: Vec<RawChunk>) -> (r: (Vec<TextChunk>, Option<png::DecodingError>))
    ensures
        views(r.0@) == decodable(raw_views(raw@)),
        first_failure(raw_views(raw@)) <= raw.len(),
        r.1 is Some <==> first_failure(raw_views(raw@)) < raw.len(),
        r.1 is Some ==> raw[first_failure(raw_views(raw@))].text == Err::<
            String,
            png::DecodingError,
        >(r.1->0),
{
    let ghost all = raw@;
    let ghost seen = raw_views(all);
    let mut out: Vec<TextChunk> = Vec::new();
    for chunk in it: raw
        invariant
            it.seq() == all,
            seen == raw_views(all),
            out.len() == it.index(),
            forall|j: int| 0 <= j < it.index() ==> (#[trigger] seen[j]).1 is Some,
            forall|j: int|
                0 <= j < it.index() ==> (#[trigger] out[j])@ == (seen[j].0, seen[j].1->0),
    {
        assert(seen[it.index()] == chunk@);
        match chunk.text {
            Ok(text) => {
                out.push(TextChunk { keyword: chunk.keyword, text });
            },
            Err(e) => {
                proof {
                    lemma_first_failure_is(seen, it.index());
                }
                assert(views(out@) == decodable(seen));
                return (out, Some(e));
            },
        }
    }
    proof {
        lemma_first_failure_is(seen, seen.len() as int);
    }
    assert(views(out@) == decodable(seen));
    (out, None)
}

/// `png::Decoder::new` over the bytes, then `Decoder::read_info`, which reads the
/// metadata up to the first frame or fails, and a copy of `png::Reader::info`: that
/// metadata.
#[verifier::external_body]
fn open(input: Vec<u8>) -> (r: Result<(FrameReader, png::Info<'static>), png::DecodingError>)
    ensures
        r is Ok == decodes(input@),
        r is Ok ==> r->Ok_0.0 == png_reader(input@) && r->Ok_0.1 == png_info(input@),
{
    let inner = png::Decoder::new(std::io::Cursor::new(input)).read_info()?;
    let info = inner.info().clone();
    Ok((FrameReader { inner }, info))
}

/// `png::Reader::output_buffer_size`: the number of bytes that a frame needs, if the
/// machine can address that many.
#[verifier::external_body]
fn output_buffer_size(reader: &FrameReader) -> (r: Option<usize>)
    ensures
        r == buffer_size(*reader),
{
    reader.inner.output_buffer_size()
}

/// `png::Info::animation_control` and `png::Info::frame_control`: the number of
/// frames of an animation, and whether a frame control precedes the first image.
#[verifier::external_body]
fn animation(info: &png::Info<'static>) -> (r: Option<(u32, bool)>)
    ensures
        r == animation_in(*info),
{
    info.animation_control.map(|a| (a.num_frames, info.frame_control.is_some()))
}

/// The `tEXt` chunks in `png::Info::uncompressed_latin1_text`, each as keyword and
/// text.
#[verifier::external_body]
fn text_chunks(info: &png::Info<'static>) -> (r: Vec<TextChunk>)
    ensures
        views(r@) == text_in(*info),
{
    info.uncompressed_latin1_text
        .iter()
        .map(|c| TextChunk { keyword: c.keyword.clone(), text: c.text.clone() })
        .collect()
}

/// The `zTXt` chunks in `png::Info::compressed_latin1_text`. The text of each is what
/// `png::text_metadata::ZTXtChunk::get_text` gives: the decompressed text, or why it
/// could not be decompressed.
#[verifier::external_body]
fn compressed_chunks(info: &png::Info<'static>) -> (r: Vec<RawChunk>)
    ensures
        raw_views(r@) == compressed_text_in(*info),
{
    info.compressed_latin1_text
        .iter()
        .map(|c| RawChunk { keyword: c.keyword.clone(), text: c.get_text() })
        .collect()
}

/// The `iTXt` chunks in `png::Info::utf8_text`. The text of each is what
/// `png::text_metadata::ITXtChunk::get_text` gives: the text, decompressed where the
/// chunk is compressed, or why it could not be had.
#[verifier::external_body]
fn international_chunks(info: &png::Info<'static>) -> (r: Vec<RawChunk>)
    ensures
        raw_views(r@) == international_text_in(*info),
{
    info.utf8_text
        .iter()
        .map(|c| RawChunk { keyword: c.keyword.clone(), text: c.get_text() })
        .collect()
}

/// Empties the three lists of text chunks in a `png::Info`; the rest of the metadata
/// stays.
#[verifier::external_body]
fn clear_text(info: &mut png::Info<'static>)
    ensures
        *final(info) == without_text(*old(info)),
{
    info.uncompressed_latin1_text.clear();
    info.compressed_latin1_text.clear();
    info.utf8_text.clear();
}

/// Sets `png::Info::interlaced`, which the encoder writes into the image header.
#[verifier::external_body]
fn set_interlaced(info: &mut png::Info<'static>, interlaced: bool)
    ensures
        *final(info) == with_interlaced(*old(info), interlaced),
{
    info.interlaced = interlaced;
}

/// `png::Reader::next_frame` into a new buffer of `size` zero bytes, cut to
/// `png::OutputInfo::buffer_size`: the bytes of the next frame, or why it could not
/// be decoded. The buffer is new each time, because the decoder adds the pixels of
/// an interlaced image to what the buffer holds.
#[verifier::external_body]
fn next_frame(reader: &mut FrameReader, size: usize) -> (r: Result<Vec<u8>, png::DecodingError>)
    ensures
        r is Ok == frame_at(*old(reader), size as int) is Some,
        r is Ok ==> r->Ok_0@ == frame_at(*old(reader), size as int)->0,
        *final(reader) == reader_after(*old(reader), size as int),
{
    let mut buf = vec![0u8; size];
    let info = reader.inner.next_frame(&mut buf)?;
    buf.truncate(info.buffer_size());
    Ok(buf)
}

/// `png::Encoder::with_info` with the metadata, `add_text_chunk`, `add_ztxt_chunk` and
/// `add_itxt_chunk` with each chunk of its kind in order, `write_header`,
/// `png::Writer::write_image_data` with each frame in order, and `finish`: the bytes
/// of the image, unless the encoder refuses any of it. The metadata must come from
/// the decoder, which hands out none that the encoder cannot work with: a frame
/// control with a width of 0 would make the encoder panic.
#[verifier::external_body]
fn encode(seed: &png::Info<'static>, text: &PngText, frames: &Vec<Vec<u8>>) -> (r: Result<
    Vec<u8>,
    png::EncodingError,
>)
    requires
        seeded_by_decoder(*seed),
    ensures
        r is Ok == encodes(*seed, text@, frame_views(frames@)),
        r is Ok ==> r->Ok_0@ == encoded(*seed, text@, frame_views(frames@)),
{
    let mut out = Vec::new();
    let mut encoder = png::Encoder::with_info(&mut out, seed.clone())?;
    for c in &text.latin1 { encoder.add_text_chunk(c.keyword.clone(), c.text.clone())?; }
    for c in &text.compressed_latin1 { encoder.add_ztxt_chunk(c.keyword.clone(), c.text.clone())?; }
    for c in &text.utf8 { encoder.add_itxt_chunk(c.keyword.clone(), c.text.clone())?; }
    let mut writer = encoder.write_header()?;
    for frame in frames { writer.write_image_data(frame)?; }
    writer.finish()?;
    Ok(out)
}

/// A failure of the decoder as an error of the patcher.
pub fn conv_read_err(err: png::DecodingError) -> (r: PatcherError)
    ensures
        r == PatcherError::PngDecoding(err),
{
    PatcherError::PngDecoding(err)
}

/// A failure of the encoder as an error of the patcher.
pub fn conv_write_err(err: png::EncodingError) -> (r: PatcherError)
    ensures
        r == PatcherError::PngEncoding(err),
{
    PatcherError::PngEncoding(err)
}

/// Each frame as its bytes.
pub open spec fn frame_views(frames: Seq<Vec<u8>>) -> Seq<Seq<u8>> {
    frames.map_values(|f: Vec<u8>| f@)
}

/// The number of images in the file: one if it is no animation; the frames of the
/// animation otherwise, and one more if the first image is none of them.
pub open spec fn frames_expected(animation: Option<(u32, bool)>) -> nat {
    match animation {
        None => 1,
        Some((frames, true)) => frames as nat,
        Some((frames, false)) => frames as nat + 1,
    }
}

/// The number of images in the file.
pub fn frame_count(animation: Option<(u32, bool)>) -> (r: u64)
    ensures
        r == frames_expected(animation),
{
    match animation {
        None => 1,
        Some((frames, true)) => frames as u64,
        Some((frames, false)) => frames as u64 + 1,
    }
}

/// The next `count` frames of a reader, decoded one after the other into buffers of
/// `size` bytes; nothing if one of them cannot be decoded.
pub open spec fn frames_from(reader: FrameReader, size: int, count: nat) -> Option<Seq<Seq<u8>>>
    decreases count,
{
    if count == 0 {
        Some(Seq::empty())
    } else {
        match frame_at(reader, size) {
            None => None,
            Some(frame) => match frames_from(reader_after(reader, size), size, (count - 1) as nat) {
                None => None,
                Some(rest) => Some(seq![frame] + rest),
            },
        }
    }
}

/// Whether the metadata is what the decoder found in some image, with its text
/// chunks or without them.
pub open spec fn decoded_metadata(info: png::Info<'static>) -> bool {
    exists|input: Seq<u8>|
        decodes(input) && (info == #[trigger] png_info(input) || info == without_text(
            png_info(input),
        ))
}

/// Whether the seed is metadata that the decoder found, with interlacing off.
pub open spec fn seeded_by_decoder(seed: png::Info<'static>) -> bool {
    exists|info: png::Info<'static>|
        decoded_metadata(info) && seed == #[trigger] with_interlaced(info, false)
}

/// What the encoder is made with: the metadata of the image to write.
pub struct Reencoder {
    pub seed: png::Info<'static>,
}

/// An encoder for an image with the structure that `info` describes, but never
/// interlaced: its seed is `info` as it is but for the interlacing flag, which is off.
/// The metadata must be what the decoder found in an image: the encoder is handed no
/// other.
pub fn create_reencoder(info: png::Info<'static>) -> (r: Reencoder)
    requires
        decoded_metadata(info),
    ensures
        r.seed == with_interlaced(info, false),
        seeded_by_decoder(r.seed),
{
    let mut seed = info;
    set_interlaced(&mut seed, false);
    Reencoder { seed }
}

impl Reencoder {
    /// Encodes an image with the seed of the encoder, the text chunks and the frames:
    /// the bytes that the encoder makes of them, or its refusal. The seed must be
    /// what [`create_reencoder`] made of the decoder's metadata.
    pub fn encode(&self, text: &PngText, frames: &Vec<Vec<u8>>) -> (r: Result<Vec<u8>, PatcherError>)
        requires
            seeded_by_decoder(self.seed),
        ensures
            encodes(self.seed, text@, frame_views(frames@)) ==> (r matches Ok(bytes) && bytes@
                == encoded(self.seed, text@, frame_views(frames@))),
            !encodes(self.seed, text@, frame_views(frames@)) ==> (r matches Err(
                PatcherError::PngEncoding(_),
            )),
    {
        match encode(&self.seed, text, frames) {
            Ok(bytes) => Ok(bytes),
            Err(e) => Err(conv_write_err(e)),
        }
    }
}

/// Copies the next `count` frames out of the reader, each as it is decoded into a
/// new buffer of `size` bytes, in order. A frame that cannot be decoded is a failure.
fn copy_frames(reader: &mut FrameReader, size: usize, count: u64) -> (r: Result<
    Vec<Vec<u8>>,
    PatcherError,
>)
    ensures
        match frames_from(*old(reader), size as int, count as nat) {
            Some(frames) => r matches Ok(copied) && frame_views(copied@) == frames,
            None => r matches Err(PatcherError::PngDecoding(_)),
        },
{
    let ghost start = *reader;
    let mut frames: Vec<Vec<u8>> = Vec::new();
    let mut i: u64 = 0;
    assert(Seq::<Seq<u8>>::empty() + Seq::<Seq<u8>>::empty() == Seq::<Seq<u8>>::empty());
    assert(frame_views(frames@) == Seq::<Seq<u8>>::empty());
    while i < count
        invariant
            i <= count,
            start == *old(reader),
            frames_from(start, size as int, count as nat) == match frames_from(
                *reader,
                size as int,
                (count - i) as nat,
            ) {
                Some(rest) => Some(frame_views(frames@) + rest),
                None => None,
            },
        decreases count - i,
    {
        let ghost before = frame_views(frames@);
        match next_frame(reader, size) {
            Ok(frame) => {
                let ghost bytes = frame@;
                frames.push(frame);
                assert(frame_views(frames@) == before.push(bytes));
                assert forall|rest: Seq<Seq<u8>>| before + (seq![bytes] + rest) == before.push(
                    bytes,
                ) + rest by {
                    assert(before + (seq![bytes] + rest) =~= before.push(bytes) + rest);
                }
            },
            Err(e) => {
                return Err(conv_read_err(e));
            },
        }
        i = i + 1;
    }
    assert(frame_views(frames@) + Seq::<Seq<u8>>::empty() == frame_views(frames@));
    Ok(frames)
}

/// The text chunks of the image after a bake of `verify`: only the `iTXt` chunks
/// change.
pub open spec fn baked_text(info: png::Info<'static>, verify: Seq<char>) -> PngTextView {
    PngTextView {
        latin1: text_in(info),
        compressed_latin1: decodable(compressed_text_in(info)),
        utf8: baked_chunks(decodable(international_text_in(info)), verify),
    }
}

/// What is made of the image once its text chunks are baked: the frames are decoded,
/// as many as the metadata says, and the image is encoded anew with the metadata but
/// for its text chunks and with interlacing off, with the baked text chunks, and with
/// the frames as they were decoded.
pub open spec fn reencoded_result(
    input: Seq<u8>,
    size: usize,
    verify: Seq<char>,
    r: Result<Vec<u8>, PatcherError>,
) -> bool {
    let info = png_info(input);
    match frames_from(png_reader(input), size as int, frames_expected(animation_in(info))) {
        None => r matches Err(PatcherError::PngDecoding(_)),
        Some(frames) => {
            let seed = with_interlaced(without_text(info), false);
            if encodes(seed, baked_text(info, verify), frames) {
                r matches Ok(bytes) && bytes@ == encoded(seed, baked_text(info, verify), frames)
            } else {
                r matches Err(PatcherError::PngEncoding(_))
            }
        },
    }
}

/// What a bake of the PNG image in `input` gives.
///
/// Bytes that the decoder does not accept are a failure, and so is a frame too large
/// to address. Then the text chunks that precede the first frame decide: a `zTXt` chunk
/// that cannot be decompressed is a failure; a conflict among the `iTXt` chunks
/// that come before any whose text cannot be had is reported, where conflicts are to
/// be reported, with the payload of the first marker in the way; an `iTXt` chunk
/// whose text cannot be had is a failure otherwise. After that the image is made as
/// [`reencoded_result`] says.
pub open spec fn rewrite_result(
    input: Seq<u8>,
    verify: Seq<char>,
    fail_if_verify_present: bool,
    r: Result<Vec<u8>, PatcherError>,
) -> bool {
    let info = png_info(input);
    let compressed = compressed_text_in(info);
    let international = international_text_in(info);
    if !decodes(input) {
        r matches Err(PatcherError::PngDecoding(_))
    } else {
        match buffer_size(png_reader(input)) {
            None => r matches Err(PatcherError::FrameBuffer),
            Some(size) => if first_failure(compressed) < compressed.len() {
                r matches Err(PatcherError::PngDecoding(_))
            } else {
                match conflict(decodable(international), verify) {
                    Some(found) if fail_if_verify_present => r matches Err(
                        PatcherError::VerifyAlreadySet { present, proposed },
                    ) && present@ == found && proposed@ == verify,
                    _ => if first_failure(international) < international.len() {
                        r matches Err(PatcherError::PngDecoding(_))
                    } else {
                        reencoded_result(input, size, verify, r)
                    },
                }
            },
        }
    }
}

/// Whether the text chunks of the image can all be had, and its frames can be
/// addressed: what a bake needs before the rules of the bake decide.
pub open spec fn text_readable(input: Seq<u8>) -> bool {
    let info = png_info(input);
    &&& decodes(input)
    &&& buffer_size(png_reader(input)) is Some
    &&& first_failure(compressed_text_in(info)) == compressed_text_in(info).len()
    &&& first_failure(international_text_in(info)) == international_text_in(info).len()
}

/// A conflict is detected by the patcher: on an image whose text can be read and that
/// is marked with `present`, a bake of another payload that reports conflicts gives
/// exactly that conflict.
pub proof fn law_rewrite_detects_conflict(
    input: Seq<u8>,
    present: Seq<char>,
    proposed: Seq<char>,
    r: Result<Vec<u8>, PatcherError>,
)
    requires
        text_readable(input),
        marked_with(decodable(international_text_in(png_info(input))), present),
        present != proposed,
        rewrite_result(input, proposed, true, r),
    ensures
        r matches Err(PatcherError::VerifyAlreadySet { present: found, proposed: wanted })
            && found@ == present && wanted@ == proposed,
{
    law_conflict_is_detected(decodable(international_text_in(png_info(input))), present, proposed);
}

/// Where no conflict is to be reported, the patcher gives what the decoder and the
/// encoder make of the image: a failure only if a frame cannot be decoded or the
/// encoder refuses, and else the image encoded with the baked text chunks. In them
/// the `tEXt` and `zTXt` chunks are those of the image, the `iTXt` chunks that are no
/// markers are those of the image, and the markers carry `verify`.
pub proof fn law_rewrite_keeps_the_image(
    input: Seq<u8>,
    verify: Seq<char>,
    fail_if_verify_present: bool,
    r: Result<Vec<u8>, PatcherError>,
)
    requires
        text_readable(input),
        !fail_if_verify_present || conflict(
            decodable(international_text_in(png_info(input))),
            verify,
        ) is None,
        rewrite_result(input, verify, fail_if_verify_present, r),
    ensures
        reencoded_result(input, buffer_size(png_reader(input))->0, verify, r),
        baked_text(png_info(input), verify).latin1 == text_in(png_info(input)),
        baked_text(png_info(input), verify).compressed_latin1 == decodable(
            compressed_text_in(png_info(input)),
        ),
        cargo(baked_text(png_info(input), verify).utf8) == cargo(
            decodable(international_text_in(png_info(input))),
        ),
        marked_with(baked_text(png_info(input), verify).utf8, verify),
{
    let international = decodable(international_text_in(png_info(input)));
    law_bake_preserves_cargo(international, verify);
    law_baked_is_marked(international, verify);
}

/// An image without text chunks gets exactly one: the marker with `verify`.
pub proof fn law_rewrite_of_bare_image(
    input: Seq<u8>,
    verify: Seq<char>,
    fail_if_verify_present: bool,
    r: Result<Vec<u8>, PatcherError>,
)
    requires
        decodes(input),
        buffer_size(png_reader(input)) is Some,
        text_in(png_info(input)).len() == 0,
        compressed_text_in(png_info(input)).len() == 0,
        international_text_in(png_info(input)).len() == 0,
        rewrite_result(input, verify, fail_if_verify_present, r),
    ensures
        reencoded_result(input, buffer_size(png_reader(input))->0, verify, r),
        baked_text(png_info(input), verify) == (PngTextView {
            latin1: Seq::empty(),
            compressed_latin1: Seq::empty(),
            utf8: seq![(marker_keyword(), verify)],
        }),
{
    let none = Seq::<ChunkView>::empty();
    let info = png_info(input);
    assert(text_in(info) == none);
    assert(decodable(compressed_text_in(info)) == none);
    assert(decodable(international_text_in(info)) == none);
    assert(none.filter(stays(verify)) == none) by {
        reveal(Seq::filter);
    }
    assert(!satisfied(none, verify));
    assert(none.push((marker_keyword(), verify)) == seq![(marker_keyword(), verify)]);
    assert(first_conflict(none, verify) == 0);
}

/// The patcher for PNG images.
pub struct Patcher;

impl super::Patcher for Patcher {
    /// Decodes the PNG image in `input`, bakes `verify` into its text chunks as
    /// [`bake`] says, and encodes the image anew: with the same structure, but never
    /// interlaced; with the text chunks that the bake handed back; with the frames as
    /// they were decoded.
    fn rewrite(input: Vec<u8>, verify: &str, fail_if_verify_present: bool) -> (r: Result<
        Vec<u8>,
        PatcherError,
    >)
        ensures
            rewrite_result(input@, verify@, fail_if_verify_present, r),
    {
        let (mut reader, mut info) = match open(input) {
            Ok(opened) => opened,
            Err(e) => {
                return Err(conv_read_err(e));
            },
        };
        let size = match output_buffer_size(&reader) {
            Some(size) => size,
            None => {
                return Err(PatcherError::FrameBuffer);
            },
        };
        let latin1 = text_chunks(&info);
        let compressed = compressed_chunks(&info);
        let international = international_chunks(&info);
        let ghost packed = raw_views(compressed@);
        let ghost worded = raw_views(international@);
        assert(packed.len() == compressed.len() && worded.len() == international.len());
        let (compressed_latin1, failure) = decoded_prefix(compressed);
        if let Some(e) = failure {
            return Err(conv_read_err(e));
        }
        let (utf8, failure) = decoded_prefix(international);
        proof {
            lemma_first_conflict(views(utf8@), verify@);
        }
        let unbaked = PngText { latin1, compressed_latin1, utf8 };
        assert(unbaked@.utf8 == decodable(worded));
        let text = match bake(unbaked, verify, fail_if_verify_present) {
            Ok(text) => text,
            Err(e) => {
                return Err(e);
            },
        };
        if let Some(e) = failure {
            return Err(conv_read_err(e));
        }
        assert(text@ == baked_text(png_info(input@), verify@));
        let count = frame_count(animation(&info));
        let frames = copy_frames(&mut reader, size, count)?;
        clear_text(&mut info);
        assert(decoded_metadata(info)) by {
            assert(decodes(input@) && info == without_text(png_info(input@)));
        }
        create_reencoder(info).encode(&text, &frames)
    }
}

} // verus!
