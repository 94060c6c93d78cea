//! Admission checks on a prompt's content parts: how many, how large, and
//! what each part must carry for its type. Storing attachments is left to
//! the caller, part by part, after the part passed its checks.
use vstd::prelude::*;
use vstd::utf8::encode_utf8;
use crate::text::{owned, str_eq};

verus! {

/// At most this many content parts in one prompt.
pub const MAX_CONTENT_PARTS: usize = 128;

/// Budget for the encoded `data` of all parts together (128 MiB).
pub const MAX_ENCODED_BYTES: usize = 134217728;

/// Longest attachment name, in bytes.
pub const MAX_NAME_BYTES: usize = 1024;

/// Longest base64 text of a file part: the encoding of 32 MiB.
pub const MAX_FILE_BASE64_BYTES: usize = 44739244;

/// A part's `name` field.
#[derive(Clone, Debug, PartialEq, Eq)]
pub enum NameField {
    /// Missing or null.
    Absent,
    Text(String),
    /// Present but not a string.
    NotText,
}

/// One content part, as the fields the checks read: each is present when
/// the part holds a string under that key.
#[derive(Clone, Debug)]
pub struct PromptPart {
    pub kind: Option<String>,
    pub name: NameField,
    pub text: Option<String>,
    pub media_type: Option<String>,
    pub data: Option<String>,
    pub attachment_id: Option<String>,
}

/// What admitting an accepted part involves.
#[derive(Clone, Debug, PartialEq, Eq)]
pub enum PartPlan {
    Text { text: String },
    /// Decode and store an inline image.
    Image { media_type: String, data: String },
    /// Decode and store an inline file.
    File { media_type: String, data: String },
    /// Resolve a stored attachment, which must be an image exactly when
    /// `image` holds.
    Ref { image: bool, attachment_id: String },
}

pub enum PartPlanView {
    Text(Seq<char>),
    Image(Seq<char>, Seq<char>),
    File(Seq<char>, Seq<char>),
    Ref(bool, Seq<char>),
}

impl View for PartPlan {
    type V = PartPlanView;

    open spec fn view(&self) -> PartPlanView {
        match self {
            PartPlan::Text { text } => PartPlanView::Text(text@),
            PartPlan::Image { media_type, data } => PartPlanView::Image(media_type@, data@),
            PartPlan::File { media_type, data } => PartPlanView::File(media_type@, data@),
            PartPlan::Ref { image, attachment_id } => PartPlanView::Ref(*image, attachment_id@),
        }
    }
}

/// Why prompt content is refused.
#[derive(Clone, Copy, Debug, PartialEq, Eq, Structural)]
pub enum PromptError {
    TooManyParts,
    OverBudget,
    EmptyContent,
    NameNotText,
    InvalidName,
    TextNeedsString,
    ImageNeedsMediaType,
    UnsupportedMediaType,
    ImageNeedsData,
    EmptyImage,
    FileNeedsMediaType,
    FileNeedsData,
    FileTooLarge,
    RefNeedsAttachmentId,
    UnknownPartType,
}

/// Bytes of a text in UTF-8.
pub open spec fn utf8_len(s: Seq<char>) -> nat {
    encode_utf8(s).len()
}

pub open spec fn data_len(p: PromptPart) -> nat {
    match p.data {
        Some(d) => utf8_len(d@),
        None => 0,
    }
}

/// Encoded bytes of the `data` of the first `n` parts.
pub open spec fn encoded_upto(parts: Seq<PromptPart>, n: int) -> nat
    decreases n,
{
    if n <= 0 { 0 } else { encoded_upto(parts, n - 1) + data_len(parts[n - 1]) }
}

/// The checks on the content as a whole: at most 128 parts, their encoded
/// data within budget, and at least one part.
pub open spec fn content_error(parts: Seq<PromptPart>) -> Option<PromptError> {
    if parts.len() > MAX_CONTENT_PARTS {
        Some(PromptError::TooManyParts)
    } else if encoded_upto(parts, parts.len() as int) > MAX_ENCODED_BYTES {
        Some(PromptError::OverBudget)
    } else if parts.len() == 0 {
        Some(PromptError::EmptyContent)
    } else {
        None
    }
}

pub open spec fn is_image_type(m: Seq<char>) -> bool {
    m == "image/png"@ || m == "image/jpeg"@ || m == "image/webp"@ || m == "image/gif"@
}

/// What one part must carry: a string name of at most 1024 bytes without
/// NUL, if named; then by type, text for text, an allowed image type and
/// non-empty data for an image, a media type and data of at most the
/// encoding of 32 MiB for a file, and an attachment id for a reference.
pub open spec fn part_spec(p: PromptPart) -> Result<PartPlanView, PromptError> {
    if p.name is NotText {
        Err(PromptError::NameNotText)
    } else if p.name matches NameField::Text(n) && (utf8_len(n@) > MAX_NAME_BYTES || n@.contains('\0')) {
        Err(PromptError::InvalidName)
    } else {
        match p.kind {
            Some(k) => if k@ == "text"@ {
                match p.text {
                    Some(t) => Ok(PartPlanView::Text(t@)),
                    None => Err(PromptError::TextNeedsString),
                }
            } else if k@ == "image"@ {
                match p.media_type {
                    None => Err(PromptError::ImageNeedsMediaType),
                    Some(m) => if !is_image_type(m@) {
                        Err(PromptError::UnsupportedMediaType)
                    } else {
                        match p.data {
                            None => Err(PromptError::ImageNeedsData),
                            Some(d) => if d@.len() == 0 { Err(PromptError::EmptyImage) } else { Ok(PartPlanView::Image(m@, d@)) },
                        }
                    },
                }
            } else if k@ == "file"@ {
                match p.media_type {
                    None => Err(PromptError::FileNeedsMediaType),
                    Some(m) => match p.data {
                        None => Err(PromptError::FileNeedsData),
                        Some(d) => if utf8_len(d@) > MAX_FILE_BASE64_BYTES {
                            Err(PromptError::FileTooLarge)
                        } else {
                            Ok(PartPlanView::File(m@, d@))
                        },
                    },
                }
            } else if k@ == "image_ref"@ || k@ == "file_ref"@ {
                match p.attachment_id {
                    None => Err(PromptError::RefNeedsAttachmentId),
                    Some(id) => Ok(PartPlanView::Ref(k@ == "image_ref"@, id@)),
                }
            } else {
                Err(PromptError::UnknownPartType)
            },
            None => Err(PromptError::UnknownPartType),
        }
    }
}

/// Check the content as a whole, before any part is admitted.
pub fn check_content(parts: &Vec<PromptPart>) -> (r: Result<(), PromptError>)
    ensures
        match r {
            Ok(()) => content_error(parts@) is None,
            Err(e) => content_error(parts@) == Some(e),
        },
{
    if parts.len() > MAX_CONTENT_PARTS {
        return Err(PromptError::TooManyParts);
    }
    let mut total: usize = 0;
    let mut i: usize = 0;
    while i < parts.len()
        invariant
            i <= parts@.len(),
            parts@.len() <= MAX_CONTENT_PARTS,
            total == encoded_upto(parts@, i as int),
            total <= MAX_ENCODED_BYTES,
        decreases parts.len() - i,
    {
        let n: usize = match &parts[i].data {
            Some(d) => d.as_str().as_bytes().len(),
            None => 0,
        };
        assert(n == data_len(parts@[i as int]));
        assert(encoded_upto(parts@, i as int + 1) == total + n);
        if n > MAX_ENCODED_BYTES - total {
            proof {
                lemma_encoded_grows(parts@, i as int + 1, parts@.len() as int);
            }
            return Err(PromptError::OverBudget);
        }
        total = total + n;
        i = i + 1;
    }
    if parts.len() == 0 {
        return Err(PromptError::EmptyContent);
    }
    Ok(())
}

proof fn lemma_encoded_grows(parts: Seq<PromptPart>, m: int, n: int)
    requires
        0 <= m <= n,
    ensures
        encoded_upto(parts, m) <= encoded_upto(parts, n),
    decreases n - m,
{
    if m < n {
        lemma_encoded_grows(parts, m, n - 1);
    }
}

fn has_nul(s: &str) -> (r: bool)
    ensures
        r == s@.contains('\0'),
{
    let v = crate::text::chars_of(s);
    let mut i: usize = 0;
    while i < v.len()
        invariant
            i <= v@.len(),
            v@ == s@,
            forall|j: int| 0 <= j < i ==> v@[j] != '\0',
        decreases v.len() - i,
    {
        if v[i] == '\0' {
            assert(v@[i as int] == '\0');
            return true;
        }
        i = i + 1;
    }
    false
}

/// Check one part and say what admitting it involves.
pub fn check_part(p: &PromptPart) -> (r: Result<PartPlan, PromptError>)
    ensures
        (match r {
            Ok(plan) => Ok::<PartPlanView, PromptError>(plan@),
            Err(e) => Err(e),
        }) == part_spec(*p),
{
    match &p.name {
        NameField::NotText => {
            return Err(PromptError::NameNotText);
        },
        NameField::Text(n) => {
            if n.as_str().as_bytes().len() > MAX_NAME_BYTES || has_nul(n.as_str()) {
                return Err(PromptError::InvalidName);
            }
        },
        NameField::Absent => {},
    }
    let k = match &p.kind {
        Some(k) => k.as_str(),
        None => {
            return Err(PromptError::UnknownPartType);
        },
    };
    if str_eq(k, "text") {
        match &p.text {
            Some(t) => Ok(PartPlan::Text { text: owned(t.as_str()) }),
            None => Err(PromptError::TextNeedsString),
        }
    } else if str_eq(k, "image") {
        match &p.media_type {
            None => Err(PromptError::ImageNeedsMediaType),
            Some(m) => {
                let ms = m.as_str();
                if !(str_eq(ms, "image/png") || str_eq(ms, "image/jpeg") || str_eq(ms, "image/webp") || str_eq(ms, "image/gif")) {
                    return Err(PromptError::UnsupportedMediaType);
                }
                match &p.data {
                    None => Err(PromptError::ImageNeedsData),
                    Some(d) => {
                        if d.as_str().unicode_len() == 0 {
                            Err(PromptError::EmptyImage)
                        } else {
                            Ok(PartPlan::Image { media_type: owned(ms), data: owned(d.as_str()) })
                        }
                    },
                }
            },
        }
    } else if str_eq(k, "file") {
        match &p.media_type {
            None => Err(PromptError::FileNeedsMediaType),
            Some(m) => match &p.data {
                None => Err(PromptError::FileNeedsData),
                Some(d) => {
                    if d.as_str().as_bytes().len() > MAX_FILE_BASE64_BYTES {
                        Err(PromptError::FileTooLarge)
                    } else {
                        Ok(PartPlan::File { media_type: owned(m.as_str()), data: owned(d.as_str()) })
                    }
                },
            },
        }
    } else if str_eq(k, "image_ref") || str_eq(k, "file_ref") {
        match &p.attachment_id {
            None => Err(PromptError::RefNeedsAttachmentId),
            Some(id) => Ok(PartPlan::Ref { image: str_eq(k, "image_ref"), attachment_id: owned(id.as_str()) }),
        }
    } else {
        Err(PromptError::UnknownPartType)
    }
}

/// An image part with a well-formed name (or none) and non-empty data is
/// admitted exactly when its media type is PNG, JPEG, WebP or GIF, and then
/// as an image carrying that media type and data; any other media type is
/// refused as unsupported.
pub proof fn law_images_are_png_jpeg_webp_or_gif(p: PromptPart)
    requires
        p.kind matches Some(k) && k@ == "image"@,
        !(p.name is NotText),
        p.name matches NameField::Text(n) ==> utf8_len(n@) <= MAX_NAME_BYTES && !n@.contains('\0'),
        p.media_type is Some,
        p.data matches Some(d) && d@.len() > 0,
    ensures
        ({
            let m = p.media_type->0@;
            if m == "image/png"@ || m == "image/jpeg"@ || m == "image/webp"@ || m == "image/gif"@ {
                part_spec(p) == Ok::<PartPlanView, PromptError>(PartPlanView::Image(m, p.data->0@))
            } else {
                part_spec(p) == Err::<PartPlanView, PromptError>(PromptError::UnsupportedMediaType)
            }
        }),
{
    reveal_strlit("image");
    reveal_strlit("text");
    assert("image"@.len() != "text"@.len());
}

} // verus!
