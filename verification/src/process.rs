//! The rules of a run: what the settings ask for, which assertions can be baked, how
//! the payload is made, and the bake itself.

use crate::objects::verification::ObjType as VerificationType;
use crate::patcher::ImageType;
use crate::patcher::Patcher;
use crate::patcher::PatcherError;
use crate::settings::Settings;
use vstd::prelude::*;
use vstd::string::StringExecFns;

verus! {

/// Any error that may happen during a baking attempt.
#[derive(Debug)]
pub enum ProcessError {
    /// The settings do not line up into a valid configuration.
    InvalidSettings { msg: String },
    /// The assertion is not valid JSON-LD, or not according to Open Badge 2.0.
    InvalidAssertionInput { msg: String },
    /// The private key could not be read or parsed.
    InvalidSigningPrivateKey { msg: String },
    /// The x.509 certificate could not be read or parsed.
    InvalidCertificate { msg: String },
    /// The source image could not be read or parsed.
    InvalidSourceImage { msg: String },
    /// The assertion could not be signed.
    Signing { msg: String },
    /// The baked image could not be made or written.
    Output { msg: String },
    /// An error that can never happen.
    Impossible { msg: String },
    /// The patcher failed.
    Baking(PatcherError),
}

impl ProcessError {
    /// What each kind of error says before its own message.
    pub open spec fn preamble(self) -> Seq<char> {
        match self {
            ProcessError::InvalidSettings { .. } =>
                "The given combination of settings does not match/line-up into a vlaid configuration: "@,
            ProcessError::InvalidAssertionInput { .. } =>
                "The given assertion is not valid JSON-LD, or not according to the Open Badge 2.0 specification: "@,
            ProcessError::InvalidSigningPrivateKey { .. } =>
                "There was an issue reading or parsing the given private-key: "@,
            ProcessError::InvalidCertificate { .. } =>
                "There was an issue reading or parsing the given x.509 certificate: "@,
            ProcessError::InvalidSourceImage { .. } =>
                "There was an issue reading or parsing the given badge source image: "@,
            ProcessError::Signing { .. } => "There was an issue signing the assertion content: "@,
            ProcessError::Output { .. } =>
                "There was an issue baking or writing the final image: "@,
            ProcessError::Impossible { .. } => "An error that can never happen: "@,
            ProcessError::Baking(_) => Seq::empty(),
        }
    }

    /// The message that the error carries; none if the patcher failed.
    pub open spec fn detail(self) -> Seq<char> {
        match self {
            ProcessError::InvalidSettings { msg } => msg@,
            ProcessError::InvalidAssertionInput { msg } => msg@,
            ProcessError::InvalidSigningPrivateKey { msg } => msg@,
            ProcessError::InvalidCertificate { msg } => msg@,
            ProcessError::InvalidSourceImage { msg } => msg@,
            ProcessError::Signing { msg } => msg@,
            ProcessError::Output { msg } => msg@,
            ProcessError::Impossible { msg } => msg@,
            ProcessError::Baking(_) => Seq::empty(),
        }
    }

    /// What the error says, for a reader: what its kind says, and then its own
    /// message. A failure of the patcher speaks for itself.
    pub fn message(&self) -> (r: String)
        ensures
            !(self is Baking) ==> r@ == self.preamble() + self.detail(),
    {
        let (preamble, detail): (&str, &String) = match self {
            ProcessError::InvalidSettings { msg } => (
                "The given combination of settings does not match/line-up into a vlaid configuration: ",
                msg,
            ),
            ProcessError::InvalidAssertionInput { msg } => (
                "The given assertion is not valid JSON-LD, or not according to the Open Badge 2.0 specification: ",
                msg,
            ),
            ProcessError::InvalidSigningPrivateKey { msg } => (
                "There was an issue reading or parsing the given private-key: ",
                msg,
            ),
            ProcessError::InvalidCertificate { msg } => (
                "There was an issue reading or parsing the given x.509 certificate: ",
                msg,
            ),
            ProcessError::InvalidSourceImage { msg } => (
                "There was an issue reading or parsing the given badge source image: ",
                msg,
            ),
            ProcessError::Signing { msg } => (
                "There was an issue signing the assertion content: ",
                msg,
            ),
            ProcessError::Output { msg } => (
                "There was an issue baking or writing the final image: ",
                msg,
            ),
            ProcessError::Impossible { msg } => ("An error that can never happen: ", msg),
            ProcessError::Baking(err) => {
                return err.message();
            },
        };
        let mut s = String::from_str(preamble);
        s.append(detail.as_str());
        s
    }
}

/// What a run is to do.
#[derive(Debug)]
pub enum Task {
    /// Bake the assertion at the first location into the image at the second, and
    /// write the result to the third.
    Bake { assertion_loc: String, source_image_loc: String, baked_loc: String },
    /// Nothing to bake was named: run the examples.
    Examples,
}

/// How the payload of a bake is made.
#[derive(Debug, Clone, Copy, PartialEq, Eq, Structural)]
pub enum BakingContent {
    /// The assertion is signed, and the compact signed form is the payload.
    Signed,
    /// The assertion as JSON-LD text is the payload.
    Hosted,
}

/// What the settings ask for: a bake if the assertion, the source image and the
/// baked image are all named, the examples if any of them is missing.
pub fn task(settings: &Settings) -> (r: Task)
    ensures
        match (settings.assertion_loc, settings.source_image_loc, settings.baked_loc) {
            (Some(a), Some(s), Some(b)) => r matches Task::Bake {
                assertion_loc,
                source_image_loc,
                baked_loc,
            } && assertion_loc@ == a@ && source_image_loc@ == s@ && baked_loc@ == b@,
            _ => r is Examples,
        },
{
    match (&settings.assertion_loc, &settings.source_image_loc, &settings.baked_loc) {
        (Some(a), Some(s), Some(b)) => Task::Bake {
            assertion_loc: a.clone(),
            source_image_loc: s.clone(),
            baked_loc: b.clone(),
        },
        _ => Task::Examples,
    }
}

/// What is said of an assertion that cannot be baked.
pub open spec fn assertion_refusal() -> Seq<char> {
    "An Assertions verification.type can not be VerificationObject!"@
}

/// Whether an assertion can be baked: its verification must be of a kind that a
/// single assertion has, hosted or signed.
pub fn check_assertion(verification: &VerificationType) -> (r: Result<(), ProcessError>)
    ensures
        verification is VerificationObject ==> (r matches Err(
            ProcessError::InvalidSettings { msg },
        ) && msg@ == assertion_refusal()),
        !(verification is VerificationObject) ==> r is Ok,
{
    match verification {
        VerificationType::VerificationObject => Err(
            ProcessError::InvalidSettings {
                msg: String::from_str(
                    "An Assertions verification.type can not be VerificationObject!",
                ),
            },
        ),
        _ => Ok(()),
    }
}

/// The image type that a path stands for, if its extension is known.
pub open spec fn image_type_at(path: Seq<char>) -> Option<ImageType> {
    match crate::patcher::extension(path) {
        Some(ext) => crate::patcher::image_type_of(ext),
        None => None,
    }
}

/// What is said of a path that does not stand for an image type.
pub open spec fn path_refusal(path: Seq<char>) -> Seq<char> {
    match crate::patcher::extension(path) {
        None => "Failed to extract file extension from path: '"@ + path + "'"@,
        Some(ext) => "The only supported image file types are AVG and PNG; supplied extension: '"@
            + ext + "' (in path: '"@ + path + "')"@,
    }
}

/// What the image types of the two paths are found to be.
pub open spec fn image_types_result(
    source: Seq<char>,
    baked: Seq<char>,
    r: Result<(ImageType, ImageType), ProcessError>,
) -> bool {
    match (image_type_at(source), image_type_at(baked)) {
        (None, _) => r matches Err(ProcessError::InvalidSettings { msg }) && msg@
            == "Invalid source image path: "@ + path_refusal(source) + "!"@,
        (Some(_), None) => r matches Err(ProcessError::InvalidSettings { msg }) && msg@
            == "Invalid baked image path: "@ + path_refusal(baked) + "!"@,
        (Some(s), Some(b)) => if s == b {
            r == Ok::<(ImageType, ImageType), ProcessError>((s, b))
        } else {
            r matches Err(ProcessError::InvalidSettings { msg }) && msg@
                == "Source and baked image types must be equal, but are: "@ + s.name_of() + " & "@
                + b.name_of()
        },
    }
}

/// The image type of a path, or why it has none, after `what`.
fn image_type_or_refusal(path: &str, what: &str) -> (r: Result<ImageType, ProcessError>)
    ensures
        match image_type_at(path@) {
            Some(t) => r == Ok::<ImageType, ProcessError>(t),
            None => r matches Err(ProcessError::InvalidSettings { msg }) && msg@ == what@
                + path_refusal(path@) + "!"@,
        },
{
    match ImageType::try_from(path) {
        Ok(t) => Ok(t),
        Err(e) => {
            let mut msg = what.to_owned();
            let said = e.message();
            msg.append(said.as_str());
            msg.append("!");
            Err(ProcessError::InvalidSettings { msg })
        },
    }
}

/// Resolves the image types of the source image and of the baked image from their
/// paths. Both must be known, and they must be the same: a bake does not convert.
pub fn parse_image_types(source_image_loc: &str, baked_loc: &str) -> (r: Result<
    (ImageType, ImageType),
    ProcessError,
>)
    ensures
        image_types_result(source_image_loc@, baked_loc@, r),
{
    let source_image_type = image_type_or_refusal(source_image_loc, "Invalid source image path: ")?;
    let baked_type = image_type_or_refusal(baked_loc, "Invalid baked image path: ")?;
    if source_image_type != baked_type {
        let mut msg = String::from_str("Source and baked image types must be equal, but are: ");
        msg.append(source_image_type.name());
        msg.append(" & ");
        msg.append(baked_type.name());
        return Err(ProcessError::InvalidSettings { msg });
    }
    Ok((source_image_type, baked_type))
}

/// How the payload is made for an assertion with this verification, with or without
/// a private key at hand, held against the result `r`.
pub open spec fn baking_content_result(
    verification: VerificationType,
    has_private_key: bool,
    r: Result<BakingContent, ProcessError>,
) -> bool {
    match verification {
        VerificationType::VerificationObject => r matches Err(ProcessError::Impossible { msg })
            && msg@
            == "We already made sure that the Assertions verification.type is not VerificationObject!"@,
        VerificationType::HostedBadge => if has_private_key {
            r matches Err(ProcessError::InvalidSettings { msg }) && msg@
                == "The Assertions verification.type is HostedBadge, but a private-key is also supplied; You must change either of these!"@
        } else {
            r == Ok::<BakingContent, ProcessError>(BakingContent::Hosted)
        },
        VerificationType::SignedBadge { .. } => if has_private_key {
            r == Ok::<BakingContent, ProcessError>(BakingContent::Signed)
        } else {
            r matches Err(ProcessError::InvalidSettings { msg }) && msg@
                == "The Assertions verification.type is SignedBadge, but a private-key is *not* supplied; You must change either of these!"@
        },
    }
}

/// Decides how the payload is made: a signed assertion needs a private key and is
/// signed with it; a hosted assertion must come without one and is baked as JSON-LD
/// text.
pub fn create_baking_content(verification: &VerificationType, has_private_key: bool) -> (r: Result<
    BakingContent,
    ProcessError,
>)
    ensures
        baking_content_result(*verification, has_private_key, r),
{
    match verification {
        VerificationType::VerificationObject => Err(
            ProcessError::Impossible {
                msg: String::from_str(
                    "We already made sure that the Assertions verification.type is not VerificationObject!",
                ),
            },
        ),
        VerificationType::HostedBadge => {
            if has_private_key {
                Err(
                    ProcessError::InvalidSettings {
                        msg: String::from_str(
                            "The Assertions verification.type is HostedBadge, but a private-key is also supplied; You must change either of these!",
                        ),
                    },
                )
            } else {
                Ok(BakingContent::Hosted)
            }
        },
        VerificationType::SignedBadge { .. } => {
            if has_private_key {
                Ok(BakingContent::Signed)
            } else {
                Err(
                    ProcessError::InvalidSettings {
                        msg: String::from_str(
                            "The Assertions verification.type is SignedBadge, but a private-key is *not* supplied; You must change either of these!",
                        ),
                    },
                )
            }
        },
    }
}

/// What the patcher gave, out of what a run gives: the baked image or the failure of
/// the patcher; nothing if the run failed before the patcher was called.
pub open spec fn patched(r: Result<Vec<u8>, ProcessError>) -> Option<Result<Vec<u8>, PatcherError>> {
    match r {
        Ok(image) => Some(Ok(image)),
        Err(ProcessError::Baking(e)) => Some(Err(e)),
        Err(_) => None,
    }
}

/// Bakes `baking_content` into the source image and returns the baked image.
///
/// The image types of the two locations are resolved first, and must agree; the
/// patcher of that type then rewrites the image, and what it gives is what the run
/// gives. A payload that the image already carries is never replaced by another:
/// that is a conflict.
pub fn run(
    source_image_loc: &str,
    baked_loc: &str,
    source_image: Vec<u8>,
    baking_content: &str,
) -> (r: Result<Vec<u8>, ProcessError>)
    ensures
        !(image_type_at(source_image_loc@) is Some && image_type_at(source_image_loc@)
            == image_type_at(baked_loc@)) ==> r matches Err(ProcessError::InvalidSettings { .. }),
        image_type_at(source_image_loc@) is Some && image_type_at(source_image_loc@)
            == image_type_at(baked_loc@) ==> !(r matches Err(ProcessError::InvalidSettings { .. })),
        r matches Err(ProcessError::Baking(PatcherError::VerifyAlreadySet { present, proposed }))
            ==> (proposed@ == baking_content@ && present@ != baking_content@),
        image_type_at(source_image_loc@) == Some(ImageType::Svg) && image_type_at(baked_loc@)
            == Some(ImageType::Svg) ==> (patched(r) matches Some(inner)
            && crate::patcher::svg::rewrite_result(source_image@, baking_content@, true, inner)),
        image_type_at(source_image_loc@) == Some(ImageType::Png) && image_type_at(baked_loc@)
            == Some(ImageType::Png) ==> (patched(r) matches Some(inner)
            && crate::patcher::png::rewrite_result(source_image@, baking_content@, true, inner)),
{
    let (source_image_type, _baked_type) = parse_image_types(source_image_loc, baked_loc)?;
    let fail_if_verify_present = true;
    let baked = match source_image_type {
        ImageType::Svg => crate::patcher::svg::Patcher::rewrite(source_image, baking_content, fail_if_verify_present),
        ImageType::Png => crate::patcher::png::Patcher::rewrite(source_image, baking_content, fail_if_verify_present),
    };
    match baked {
        Ok(image) => Ok(image),
        Err(e) => Err(ProcessError::Baking(e)),
    }
}

} // verus!
