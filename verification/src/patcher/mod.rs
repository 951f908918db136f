//! The common contract of the image patchers, their errors,
//! and the classification of a file path by its extension.

pub mod filter;
pub mod png;
pub mod svg;

use vstd::prelude::*;
use vstd::string::StrSliceExecFns;
use vstd::string::StringExecFns;

verus! {

/// The two carrier formats a badge can be baked into.
#[derive(Debug, Clone, Copy, PartialEq, Eq, Structural)]
pub enum ImageType {
    Svg,
    Png,
}

/// Why a path could not be classified.
#[derive(Debug)]
pub enum ToImageTypeError {
    /// The path has no file extension.
    ExtensionExtraction { msg: &'static str, path: String },
    /// The path has an extension, but it is neither `svg` nor `png`.
    Unsupported { ext: String, path: String },
}

/// Why an image could not be baked.
#[derive(Debug)]
pub enum PatcherError {
    /// The image already carries a payload, it differs from the proposed one,
    /// and the caller asked not to replace it.
    VerifyAlreadySet { present: String, proposed: String },
    /// The PNG decoder cannot say how many bytes a frame of the image needs.
    FrameBuffer,
    /// The source is not a PNG image that the decoder accepts.
    PngDecoding(::png::DecodingError),
    /// The PNG encoder refused the header, a text chunk or a frame.
    PngEncoding(::png::EncodingError),
    /// The source is not an XML document that the parser accepts.
    XmlReading(xml::reader::Error),
    /// The XML writer refused an event.
    XmlWriting(xml::writer::Error),
}

/// The operation that the patcher of each image format offers.
pub trait Patcher {
    /// Bakes `verify` into the image held in `input` and returns the new image.
    ///
    /// A conflict is reported only on request, and then names the payload that was
    /// found and the one that was proposed.
    fn rewrite(input: Vec<u8>, verify: &str, fail_if_verify_present: bool) -> (r: Result<
        Vec<u8>,
        PatcherError,
    >)
        ensures
            r matches Err(PatcherError::VerifyAlreadySet { present, proposed }) ==> fail_if_verify_present
                && proposed@ == verify@ && present@ != verify@,
    ;
}

impl ImageType {
    /// The name of the image type.
    pub open spec fn name_of(self) -> Seq<char> {
        match self {
            ImageType::Svg => "Svg"@,
            ImageType::Png => "Png"@,
        }
    }

    /// The name of the image type.
    pub fn name(self) -> (r: &'static str)
        ensures
            r@ == self.name_of(),
    {
        match self {
            ImageType::Svg => "Svg",
            ImageType::Png => "Png",
        }
    }
}

impl PatcherError {
    /// What the error says, for a reader. A failure of a decoder, parser, encoder or
    /// writer speaks for itself.
    pub fn message(&self) -> (r: String)
        ensures
            self is VerifyAlreadySet ==> r@ == "'verify' is already set to a different value."@,
            self is FrameBuffer ==> r@ == "output buffer does not fit into memory"@,
    {
        match self {
            PatcherError::VerifyAlreadySet { .. } => String::from_str(
                "'verify' is already set to a different value.",
            ),
            PatcherError::FrameBuffer => String::from_str("output buffer does not fit into memory"),
            PatcherError::PngDecoding(err) => err.to_string(),
            PatcherError::PngEncoding(err) => err.to_string(),
            PatcherError::XmlReading(err) => err.to_string(),
            PatcherError::XmlWriting(err) => err.to_string(),
        }
    }
}

impl ToImageTypeError {
    /// What the error says, for a reader.
    pub open spec fn message_of(self) -> Seq<char> {
        match self {
            ToImageTypeError::ExtensionExtraction { path, .. } =>
                "Failed to extract file extension from path: '"@ + path@ + "'"@,
            ToImageTypeError::Unsupported { ext, path } =>
                "The only supported image file types are AVG and PNG; supplied extension: '"@
                    + ext@ + "' (in path: '"@ + path@ + "')"@,
        }
    }

    /// What the error says, for a reader.
    pub fn message(&self) -> (r: String)
        ensures
            r@ == self.message_of(),
    {
        match self {
            ToImageTypeError::ExtensionExtraction { path, .. } => {
                let mut s = String::from_str("Failed to extract file extension from path: '");
                s.append(path.as_str());
                s.append("'");
                s
            },
            ToImageTypeError::Unsupported { ext, path } => {
                let mut s = String::from_str(
                    "The only supported image file types are AVG and PNG; supplied extension: '",
                );
                s.append(ext.as_str());
                s.append("' (in path: '");
                s.append(path.as_str());
                s.append("')");
                s
            },
        }
    }
}

/// Where the last component of `p` starts: one past its last `/`, or 0.
pub open spec fn component_start(p: Seq<char>) -> int
    decreases p.len(),
{
    if p.len() == 0 {
        0
    } else if p.last() == '/' {
        p.len() as int
    } else {
        component_start(p.drop_last())
    }
}

/// The final component of a `/`-separated path, read from its end:
/// trailing separators and `.` components are passed over;
/// a path that ends in `..`, or that holds no other component, has no file name.
pub open spec fn file_name(p: Seq<char>) -> Option<Seq<char>>
    decreases p.len(),
{
    if p.len() == 0 {
        None
    } else if p.last() == '/' {
        file_name(p.drop_last())
    } else {
        let start = component_start(p);
        let name = p.subrange(start, p.len() as int);
        if name == seq!['.'] {
            if 0 < start < p.len() {
                file_name(p.subrange(0, start))
            } else {
                None
            }
        } else if name == seq!['.', '.'] {
            None
        } else {
            Some(name)
        }
    }
}

/// The index of the last `.` in `name`, or -1.
pub open spec fn last_dot(name: Seq<char>) -> int
    decreases name.len(),
{
    if name.len() == 0 {
        -1
    } else if name.last() == '.' {
        name.len() - 1
    } else {
        last_dot(name.drop_last())
    }
}

/// The extension of a path: what follows the last `.` of its file name,
/// unless that `.` is the first character of the file name.
pub open spec fn extension(p: Seq<char>) -> Option<Seq<char>> {
    match file_name(p) {
        None => None,
        Some(name) => {
            let dot = last_dot(name);
            if dot <= 0 {
                None
            } else {
                Some(name.subrange(dot + 1, name.len() as int))
            }
        },
    }
}

/// `c` with an ASCII capital letter replaced by its small letter.
pub open spec fn ascii_lower(c: char) -> char {
    if 'A' <= c && c <= 'Z' {
        ((c as u8) + 32) as char
    } else {
        c
    }
}

/// Whether `ext` spells `word` when ASCII case is ignored. `word` is in small letters.
pub open spec fn spells(ext: Seq<char>, word: Seq<char>) -> bool {
    &&& ext.len() == word.len()
    &&& forall|i: int| 0 <= i < ext.len() ==> ascii_lower(#[trigger] ext[i]) == word[i]
}

/// The image type that an extension stands for, if any.
pub open spec fn image_type_of(ext: Seq<char>) -> Option<ImageType> {
    if spells(ext, "svg"@) {
        Some(ImageType::Svg)
    } else if spells(ext, "png"@) {
        Some(ImageType::Png)
    } else {
        None
    }
}

/// What classifying `path` gives: the image type, or which error.
pub open spec fn classifies_as(path: Seq<char>, r: Result<ImageType, ToImageTypeError>) -> bool {
    match extension(path) {
        None => r matches Err(ToImageTypeError::ExtensionExtraction { msg, path: p })
            && msg@ == "No file extension present"@ && p@ == path,
        Some(ext) => match image_type_of(ext) {
            Some(t) => r == Ok::<ImageType, ToImageTypeError>(t),
            None => r matches Err(ToImageTypeError::Unsupported { ext: e, path: p }) && e@ == ext
                && p@ == path,
        },
    }
}

/// A position from which no `/` follows up to the end, and which is 0 or follows a `/`,
/// is where the last component starts.
proof fn lemma_component_start_is(p: Seq<char>, start: int)
    requires
        0 <= start <= p.len(),
        forall|i: int| start <= i < p.len() ==> p[i] != '/',
        start > 0 ==> p[start - 1] == '/',
    ensures
        component_start(p) == start,
    decreases p.len(),
{
    if p.len() == 0 {
    } else if p.last() == '/' {
        assert(start == p.len());
    } else {
        assert(start < p.len());
        lemma_component_start_is(p.drop_last(), start);
    }
}

proof fn lemma_last_dot_is(name: Seq<char>, dot: int)
    requires
        -1 <= dot < name.len(),
        forall|i: int| dot < i < name.len() ==> name[i] != '.',
        dot >= 0 ==> name[dot] == '.',
    ensures
        last_dot(name) == dot,
    decreases name.len(),
{
    if name.len() == 0 {
    } else if name.last() == '.' {
    } else {
        lemma_last_dot_is(name.drop_last(), dot);
    }
}

/// Where the file name of `path` lies, as a range of character positions.
fn locate_file_name(path: &str) -> (r: Option<(usize, usize)>)
    ensures
        match r {
            Some((start, end)) => start < end <= path@.len() && file_name(path@) == Some(
                path@.subrange(start as int, end as int),
            ),
            None => file_name(path@) is None,
        },
{
    let mut end: usize = path.unicode_len();
    assert(path@.subrange(0, end as int) == path@);
    loop
        invariant
            end <= path@.len(),
            file_name(path@) == file_name(path@.subrange(0, end as int)),
        decreases end,
    {
        let ghost p = path@.subrange(0, end as int);
        if end == 0 {
            return None;
        }
        if path.get_char(end - 1) == '/' {
            assert(p.drop_last() == path@.subrange(0, end - 1));
            end = end - 1;
            continue ;
        }
        let mut start: usize = end - 1;
        while start > 0 && path.get_char(start - 1) != '/'
            invariant
                start < end <= path@.len(),
                forall|i: int| start <= i < end ==> path@[i] != '/',
            decreases start,
        {
            start = start - 1;
        }
        proof {
            lemma_component_start_is(p, start as int);
            assert(p.subrange(start as int, end as int) == path@.subrange(start as int, end as int));
        }
        let ghost name = path@.subrange(start as int, end as int);
        if end - start == 1 && path.get_char(start) == '.' {
            assert(name == seq!['.']);
            if start == 0 {
                return None;
            }
            assert(p.subrange(0, start as int) == path@.subrange(0, start as int));
            end = start;
            continue ;
        }
        if end - start == 2 && path.get_char(start) == '.' && path.get_char(start + 1) == '.' {
            assert(name == seq!['.', '.']);
            return None;
        }
        proof {
            if name == seq!['.'] {
                assert(name.len() == 1 && name[0] == '.');
            }
            if name == seq!['.', '.'] {
                assert(name.len() == 2 && name[0] == '.' && name[1] == '.');
            }
        }
        return Some((start, end));
    }
}

/// Where the extension of `path` lies, as a range of character positions.
fn locate_extension(path: &str) -> (r: Option<(usize, usize)>)
    ensures
        match r {
            Some((from, to)) => from <= to <= path@.len() && extension(path@) == Some(
                path@.subrange(from as int, to as int),
            ),
            None => extension(path@) is None,
        },
{
    match locate_file_name(path) {
        None => None,
        Some((start, end)) => {
            let ghost name = path@.subrange(start as int, end as int);
            let mut i: usize = end;
            while i > start && path.get_char(i - 1) != '.'
                invariant
                    start <= i <= end <= path@.len(),
                    forall|k: int| i <= k < end ==> path@[k] != '.',
                decreases i,
            {
                i = i - 1;
            }
            proof {
                lemma_last_dot_is(name, i - 1 - start);
            }
            if i <= start + 1 {
                None
            } else {
                assert(name.subrange(i - start, name.len() as int) == path@.subrange(
                    i as int,
                    end as int,
                ));
                Some((i, end))
            }
        },
    }
}

/// Whether two strings hold the same characters.
pub fn same_text(a: &str, b: &str) -> (r: bool)
    ensures
        r == (a@ == b@),
{
    let a = a.to_owned();
    let b = b.to_owned();
    a == b
}

/// An ASCII capital letter as its small letter, any other character as it is.
pub fn to_ascii_lower(c: char) -> (r: char)
    ensures
        r == ascii_lower(c),
{
    if 'A' <= c && c <= 'Z' {
        ((c as u8) + 32) as char
    } else {
        c
    }
}

/// Whether `text` spells `word` when ASCII case is ignored. `word` is in small letters.
pub fn spells_word(text: &str, word: &str) -> (r: bool)
    ensures
        r == spells(text@, word@),
{
    let n = text.unicode_len();
    if n != word.unicode_len() {
        return false;
    }
    let mut i: usize = 0;
    while i < n
        invariant
            i <= n,
            n == text@.len(),
            n == word@.len(),
            forall|k: int| 0 <= k < i ==> ascii_lower(#[trigger] text@[k]) == word@[k],
        decreases n - i,
    {
        if to_ascii_lower(text.get_char(i)) != word.get_char(i) {
            return false;
        }
        i = i + 1;
    }
    true
}

impl ImageType {
    /// Classifies an extension, given without its dot: `svg` and `png` in any mix of
    /// capital and small letters are known, nothing else is.
    pub fn from_extension(ext: &str) -> (r: Option<ImageType>)
        ensures
            r == image_type_of(ext@),
    {
        if spells_word(ext, "svg") {
            Some(ImageType::Svg)
        } else if spells_word(ext, "png") {
            Some(ImageType::Png)
        } else {
            None
        }
    }

    /// Resolves the image type of a file from the extension of its path.
    /// Nothing is opened or read: only the text of the path counts. The path is read
    /// as `/`-separated: no other character parts its components.
    pub fn try_from(path: &str) -> (r: Result<ImageType, ToImageTypeError>)
        ensures
            classifies_as(path@, r),
    {
        match locate_extension(path) {
            None => Err(
                ToImageTypeError::ExtensionExtraction {
                    msg: "No file extension present",
                    path: path.to_owned(),
                },
            ),
            Some((from, to)) => {
                let ext = path.substring_char(from, to);
                match ImageType::from_extension(ext) {
                    Some(t) => Ok(t),
                    None => Err(
                        ToImageTypeError::Unsupported { ext: ext.to_owned(), path: path.to_owned() },
                    ),
                }
            },
        }
    }
}

} // verus!
