//! The decisions of document ingestion: what a file is, what its chunks
//! are, what an image description request may send, and a file's hash.

use vstd::prelude::*;
use sha2::Digest;
use crate::chunker::{chunk_text, chunk_text_spec, collapse_whitespace, lemma_chunking_terminates, lemma_collapse_whitespace, strings_view};
use crate::error::{concat, owned, AppError};
use crate::llm::prompt::seq_join;
use crate::text::{range_eq_str, str_to_chars, str_to_lowercase, to_lowercase, trim_ws, trimmed_range};

verus! {

/// The text extracted from a PDF.
pub struct PdfText {
    pub full_text: String,
}

/// The chunks of a PDF's text, 500 tokens with 50 of overlap; a PDF with no
/// text is refused as `Invalid("no text in <path>")`.
pub fn pdf_chunks(path_display: &str, pdf: &PdfText) -> (r: Result<Vec<String>, AppError>)
    ensures
        chunk_text_spec(pdf.full_text@, 500, 50).len() > 0 ==> (r matches Ok(chunks) && strings_view(
            chunks@,
        ) == chunk_text_spec(pdf.full_text@, 500, 50)),
        chunk_text_spec(pdf.full_text@, 500, 50).len() == 0 ==> (r matches Err(AppError::Invalid(m))
            && m@ == "no text in "@ + path_display@),
{
    proof {
        lemma_chunking_terminates(pdf.full_text@, 500, 50);
        lemma_collapse_whitespace(pdf.full_text@);
    }
    let chunks = chunk_text(pdf.full_text.as_str(), 500, 50);
    if chunks.len() == 0 {
        Err(AppError::Invalid(concat("no text in ", path_display)))
    } else {
        Ok(chunks)
    }
}

/// The chunks of an image's description, cut as a PDF's text is: 500
/// tokens with 50 of overlap.
pub fn description_chunks(description: &str) -> (chunks: Vec<String>)
    ensures
        strings_view(chunks@) == chunk_text_spec(description@, 500, 50),
{
    proof {
        lemma_chunking_terminates(description@, 500, 50);
        lemma_collapse_whitespace(description@);
    }
    chunk_text(description, 500, 50)
}

/// What SHA-256 gives for `data`.
pub uninterp spec fn sha256_digest(data: Seq<u8>) -> Seq<u8>;

/// `Sha256::digest` of the `sha2` crate. The digest is named; the one fact
/// stated is its documented length of 32 bytes.
#[verifier::external_body]
fn sha256(data: &[u8]) -> (d: Vec<u8>)
    ensures
        d@ == sha256_digest(data@),
        d@.len() == 32,
{
    sha2::Sha256::digest(data).to_vec()
}

/// The lowercase hexadecimal digit for `n < 16`.
pub open spec fn hex_digit(n: int) -> char {
    if n < 10 {
        (48 + n) as char
    } else {
        (87 + n) as char
    }
}

/// Lowercase hexadecimal, two digits per byte, high nibble first.
pub open spec fn hex_lower(b: Seq<u8>) -> Seq<char>
    decreases b.len(),
{
    if b.len() == 0 {
        Seq::empty()
    } else {
        hex_lower(b.drop_last()) + seq![hex_digit(b.last() as int / 16), hex_digit(b.last() as int % 16)]
    }
}

/// `hex::encode`: each byte as two lowercase hexadecimal digits.
#[verifier::external_body]
fn hex_encode(data: &[u8]) -> (s: String)
    ensures
        s@ == hex_lower(data@),
{
    hex::encode(data)
}

/// The SHA-256 of a file's contents, in lowercase hexadecimal.
pub fn file_hash(contents: &[u8]) -> (h: String)
    ensures
        h@ == hex_lower(sha256_digest(contents@)),
{
    let d = sha256(contents);
    hex_encode(d.as_slice())
}

/// A lowercase hexadecimal digit.
pub open spec fn is_hex_digit(c: char) -> bool {
    ('0' <= c && c <= '9') || ('a' <= c && c <= 'f')
}

proof fn lemma_hex_lower_shape(b: Seq<u8>)
    ensures
        hex_lower(b).len() == 2 * b.len(),
        forall|i: int| 0 <= i < hex_lower(b).len() ==> is_hex_digit(#[trigger] hex_lower(b)[i]),
    decreases b.len(),
{
    if b.len() > 0 {
        lemma_hex_lower_shape(b.drop_last());
        let h = hex_lower(b);
        let p = hex_lower(b.drop_last());
        assert forall|i: int| 0 <= i < h.len() implies is_hex_digit(#[trigger] h[i]) by {
            if i < p.len() {
                assert(h[i] == p[i]);
            }
        }
    }
}

/// A file hash is always 64 lowercase hexadecimal digits.
pub proof fn lemma_file_hash_shape(contents: Seq<u8>)
    requires
        sha256_digest(contents).len() == 32,
    ensures
        hex_lower(sha256_digest(contents)).len() == 64,
        forall|i: int|
            0 <= i < 64 ==> is_hex_digit(#[trigger] hex_lower(sha256_digest(contents))[i]),
{
    lemma_hex_lower_shape(sha256_digest(contents));
}

/// The largest image that may be sent for description.
pub const MAX_IMAGE_BYTES: usize = 5242880;

/// The extension of a path as lowercase text (empty when there is none).
pub open spec fn lowered_ext(extension: Option<Seq<char>>) -> Seq<char> {
    match extension {
        Some(e) => str_to_lowercase(e),
        None => Seq::empty(),
    }
}

/// The view of an optional string slice.
pub open spec fn opt_view(o: Option<&str>) -> Option<Seq<char>> {
    match o {
        Some(s) => Some(s@),
        None => None,
    }
}

/// The media type of an image with the given lowercase extension.
pub open spec fn media_type_spec(ext: Seq<char>) -> Option<Seq<char>> {
    if ext == "png"@ {
        Some("image/png"@)
    } else if ext == "jpg"@ || ext == "jpeg"@ {
        Some("image/jpeg"@)
    } else if ext == "webp"@ {
        Some("image/webp"@)
    } else {
        None
    }
}

/// The media type of an image file with the given extension.
fn media_type_of(ext: &str) -> (r: Option<&'static str>)
    ensures
        match r {
            Some(m) => media_type_spec(ext@) == Some(m@),
            None => media_type_spec(ext@) is None,
        },
{
    let e = str_to_chars(ext);
    let n = e.len();
    proof {
        assert(e@.subrange(0, n as int) =~= ext@);
    }
    if range_eq_str(e.as_slice(), 0, n, "png") {
        Some("image/png")
    } else if range_eq_str(e.as_slice(), 0, n, "jpg") || range_eq_str(e.as_slice(), 0, n, "jpeg") {
        Some("image/jpeg")
    } else if range_eq_str(e.as_slice(), 0, n, "webp") {
        Some("image/webp")
    } else {
        None
    }
}

/// Check an image before asking for its description: it must be at most
/// 5 MiB (`Invalid("image > 5MB: <path>")`) and a PNG, JPEG or WebP by its
/// extension, in any case (`Invalid("unsupported image type")`). Gives the
/// media type to send.
pub fn check_image_for_description(len: usize, path_display: &str, extension: Option<&str>) -> (r:
    Result<&'static str, AppError>)
    ensures
        len > MAX_IMAGE_BYTES ==> (r matches Err(AppError::Invalid(m)) && m@ == "image > 5MB: "@
            + path_display@),
        len <= MAX_IMAGE_BYTES ==> match media_type_spec(lowered_ext(opt_view(extension))) {
            Some(mt) => r matches Ok(m) && m@ == mt,
            None => r matches Err(AppError::Invalid(m)) && m@ == "unsupported image type"@,
        },
{
    if len > MAX_IMAGE_BYTES {
        return Err(AppError::Invalid(concat("image > 5MB: ", path_display)));
    }
    let lowered = match extension {
        Some(e) => to_lowercase(e),
        None => String::new(),
    };
    match media_type_of(lowered.as_str()) {
        Some(m) => Ok(m),
        None => Err(AppError::Invalid(owned("unsupported image type"))),
    }
}

/// The texts of the content blocks that have one.
pub open spec fn present_texts(blocks: Seq<Option<String>>) -> Seq<Seq<char>>
    decreases blocks.len(),
{
    if blocks.len() == 0 {
        Seq::empty()
    } else {
        present_texts(blocks.drop_last()) + match blocks.last() {
            Some(t) => seq![t@],
            None => Seq::empty(),
        }
    }
}

/// The texts of the blocks that have one, in order.
pub(crate) fn texts_of(blocks: &Vec<Option<String>>) -> (r: Vec<String>)
    ensures
        strings_view(r@) == present_texts(blocks@),
{
    let mut r: Vec<String> = Vec::new();
    let mut i: usize = 0;
    while i < blocks.len()
        invariant
            i <= blocks@.len(),
            strings_view(r@) == present_texts(blocks@.take(i as int)),
        decreases blocks@.len() - i,
    {
        let ghost before = strings_view(r@);
        match &blocks[i] {
            Some(t) => {
                r.push(t.clone());
                assert(strings_view(r@) =~= before + seq![t@]);
            },
            None => {
                assert(before + Seq::<Seq<char>>::empty() =~= before);
            },
        }
        assert(blocks@.take(i + 1).drop_last() =~= blocks@.take(i as int));
        i = i + 1;
    }
    assert(blocks@.take(blocks@.len() as int) =~= blocks@);
    r
}

/// The description in a reply: the texts of its blocks joined by newlines
/// and trimmed; an empty one is `Anthropic("empty description")`.
pub fn description_from_reply(blocks: &Vec<Option<String>>) -> (r: Result<String, AppError>)
    ensures
        ({
            let d = trim_ws(seq_join(present_texts(blocks@), "\n"@));
            &&& d.len() > 0 ==> (r matches Ok(s) && s@ == d)
            &&& d.len() == 0 ==> (r matches Err(AppError::Anthropic(m)) && m@ == "empty description"@)
        }),
{
    let texts = texts_of(blocks);
    let joined = crate::llm::prompt::join_strings(&texts, "\n");
    let chars = str_to_chars(joined.as_str());
    proof {
        assert(chars@.subrange(0, chars@.len() as int) =~= chars@);
    }
    let d = trimmed_range(chars.as_slice(), 0, chars.len());
    if d.as_str().is_empty() {
        Err(AppError::Anthropic(owned("empty description")))
    } else {
        Ok(d)
    }
}

/// What a dropped file is, for ingestion.
#[derive(Debug, Clone, Copy, PartialEq, Eq)]
pub enum IngestKind {
    Pdf,
    Image,
    Unsupported,
}

/// The kind of a file with the given lowercase extension.
pub open spec fn ingest_kind_spec(ext: Seq<char>) -> IngestKind {
    if ext == "pdf"@ {
        IngestKind::Pdf
    } else if ext == "png"@ || ext == "jpg"@ || ext == "jpeg"@ || ext == "webp"@ {
        IngestKind::Image
    } else {
        IngestKind::Unsupported
    }
}

/// What a file is by its extension, in any case, and the extension in
/// lowercase (empty when there is none).
pub fn classify_extension(extension: Option<&str>) -> (r: (IngestKind, String))
    ensures
        r.1@ == lowered_ext(opt_view(extension)),
        r.0 == ingest_kind_spec(r.1@),
{
    let lowered = match extension {
        Some(e) => to_lowercase(e),
        None => String::new(),
    };
    let e = str_to_chars(lowered.as_str());
    let n = e.len();
    proof {
        assert(e@.subrange(0, n as int) =~= lowered@);
    }
    let kind = if range_eq_str(e.as_slice(), 0, n, "pdf") {
        IngestKind::Pdf
    } else if range_eq_str(e.as_slice(), 0, n, "png") || range_eq_str(e.as_slice(), 0, n, "jpg")
        || range_eq_str(e.as_slice(), 0, n, "jpeg") || range_eq_str(e.as_slice(), 0, n, "webp") {
        IngestKind::Image
    } else {
        IngestKind::Unsupported
    };
    (kind, lowered)
}

/// The kind of a file the user asks to ingest; any other extension is
/// refused as `Invalid("unsupported extension: <ext>")`.
pub fn ingest_path_kind(extension: Option<&str>) -> (r: Result<IngestKind, AppError>)
    ensures
        ({
            let ext = lowered_ext(opt_view(extension));
            match ingest_kind_spec(ext) {
                IngestKind::Unsupported => r matches Err(AppError::Invalid(m)) && m@
                    == "unsupported extension: "@ + ext,
                k => r == Ok::<IngestKind, AppError>(k),
            }
        }),
{
    let (kind, lowered) = classify_extension(extension);
    match kind {
        IngestKind::Unsupported => Err(
            AppError::Invalid(concat("unsupported extension: ", lowered.as_str())),
        ),
        k => Ok(k),
    }
}

/// A dropped file is ingested as an image exactly when its lowercase
/// extension is one an image description can be asked for (PNG, JPEG under
/// `jpg` or `jpeg`, WebP), and as a PDF exactly for `pdf`; everything else is
/// unsupported.
pub proof fn lemma_kinds_match_media_types(ext: Seq<char>)
    ensures
        ingest_kind_spec(ext) == IngestKind::Image <==> media_type_spec(ext) is Some,
        ingest_kind_spec(ext) == IngestKind::Pdf <==> ext == "pdf"@,
        ingest_kind_spec("png"@) == IngestKind::Image,
        ingest_kind_spec("jpg"@) == IngestKind::Image,
        ingest_kind_spec("jpeg"@) == IngestKind::Image,
        ingest_kind_spec("webp"@) == IngestKind::Image,
        media_type_spec("jpg"@) == Some("image/jpeg"@),
        media_type_spec("jpeg"@) == Some("image/jpeg"@),
        media_type_spec("png"@) == Some("image/png"@),
        media_type_spec("webp"@) == Some("image/webp"@),
{
    reveal_strlit("pdf");
    reveal_strlit("png");
    reveal_strlit("jpg");
    reveal_strlit("jpeg");
    reveal_strlit("webp");
    assert("png"@[1] != "pdf"@[1]);
    assert("jpg"@[0] != "pdf"@[0]);
    assert("jpeg"@.len() != "pdf"@.len());
    assert("webp"@.len() != "pdf"@.len());
    assert("webp"@[0] != "png"@[0]);
    assert("webp"@[0] != "jpg"@[0]);
    assert("webp"@[0] != "jpeg"@[0]);
}

} // verus!
