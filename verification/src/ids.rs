//! Identities of workspaces, reviews, files and annotations.
use crate::errors::DispatchError;
use crate::text::strip_prefix;
use vstd::arithmetic::power::pow;
use vstd::prelude::*;
use vstd::string::*;

verus! {

/// Identifies a workspace.
#[derive(Clone, Copy, Debug, PartialEq, Eq, PartialOrd, Ord, Hash, Structural)]
pub struct WorkspaceId(pub u128);

/// Identifies a repository of a workspace.
#[derive(Clone, Copy, Debug, PartialEq, Eq, PartialOrd, Ord, Hash, Structural)]
pub struct RepositoryId(pub u128);

/// Identifies one review round of a workspace.
#[derive(Clone, Copy, Debug, PartialEq, Eq, PartialOrd, Ord, Hash, Structural)]
pub struct ReviewSessionId(pub u128);

/// Identifies one captured comparison of a repository.
#[derive(Clone, Copy, Debug, PartialEq, Eq, PartialOrd, Ord, Hash, Structural)]
pub struct ComparisonId(pub u128);

/// Identifies a file under review.
#[derive(Clone, Copy, Debug, PartialEq, Eq, PartialOrd, Ord, Hash, Structural)]
pub struct ReviewFileId(pub u128);

/// Identifies an annotation.
#[derive(Clone, Copy, Debug, PartialEq, Eq, PartialOrd, Ord, Hash, Structural)]
pub struct AnnotationId(pub u128);

/// Identifies a set of annotations.
#[derive(Clone, Copy, Debug, PartialEq, Eq, PartialOrd, Ord, Hash, Structural)]
pub struct AnnotationSetId(pub u128);

/// Identifies a stored prompt.
#[derive(Clone, Copy, Debug, PartialEq, Eq, PartialOrd, Ord, Hash, Structural)]
pub struct PromptExportId(pub u128);

/// One hexadecimal digit, in lower case.
pub open spec fn lower_hex(value: int) -> char {
    if value < 10 {
        (48 + value) as char
    } else {
        (87 + value) as char
    }
}

/// How many hyphens stand before a position of a rendered identity.
pub open spec fn hyphens_before(position: int) -> int {
    if position <= 8 {
        0
    } else if position <= 13 {
        1
    } else if position <= 18 {
        2
    } else if position <= 23 {
        3
    } else {
        4
    }
}

/// The rendered form of an identity: its 32 hexadecimal digits, most
/// significant first, in groups of 8, 4, 4, 4 and 12 joined by hyphens.
pub open spec fn id_chars(value: u128) -> Seq<char> {
    Seq::new(
        36,
        |position: int|
            if position == 8 || position == 13 || position == 18 || position == 23 {
                '-'
            } else {
                lower_hex(
                    (value as int / pow(16, (31 - position + hyphens_before(position)) as nat))
                        % 16,
                )
            },
    )
}

/// The identity that `uuid::Uuid::parse_str` reads from a text, if any.
pub uninterp spec fn parsed_id(text: Seq<char>) -> Option<u128>;

/// Reads an identity with `uuid::Uuid::parse_str`, which is a function of the
/// text alone and finds none in the empty text.
#[verifier::external_body]
pub(crate) fn read_id(text: &str) -> (value: Option<u128>)
    ensures
        value == parsed_id(text@),
        text@.len() == 0 ==> value is None,
{
    uuid::Uuid::parse_str(text).ok().map(|id| id.as_u128())
}

/// Renders an identity with the `Display` form of `uuid::Uuid`, the lower-case
/// hyphenated form, which `uuid::Uuid::parse_str` reads back.
#[verifier::external_body]
pub(crate) fn render_id(value: u128) -> (text: String)
    ensures
        text@ == id_chars(value),
        parsed_id(text@) == Some(value),
{
    uuid::Uuid::from_u128(value).to_string()
}

/// Renders an identity.
pub fn id_text(value: u128) -> (text: String)
    ensures
        text@ == id_chars(value),
        parsed_id(text@) == Some(value),
{
    render_id(value)
}

/// Reads a workspace identity.
pub fn parse_workspace_id(value: &str) -> (id: Option<WorkspaceId>)
    ensures
        id == (match parsed_id(value@) {
            Some(number) => Some(WorkspaceId(number)),
            None => None,
        }),
{
    match read_id(value) {
        Some(number) => Some(WorkspaceId(number)),
        None => None,
    }
}

/// Reads a repository identity.
pub fn parse_repository_id(value: &str) -> (id: Option<RepositoryId>)
    ensures
        id == (match parsed_id(value@) {
            Some(number) => Some(RepositoryId(number)),
            None => None,
        }),
{
    match read_id(value) {
        Some(number) => Some(RepositoryId(number)),
        None => None,
    }
}

/// Reads a file identity.
pub fn parse_review_file_id(value: &str) -> (id: Option<ReviewFileId>)
    ensures
        id == (match parsed_id(value@) {
            Some(number) => Some(ReviewFileId(number)),
            None => None,
        }),
{
    match read_id(value) {
        Some(number) => Some(ReviewFileId(number)),
        None => None,
    }
}

/// Reads a comparison identity.
pub fn parse_comparison_id(value: &str) -> (id: Option<ComparisonId>)
    ensures
        id == (match parsed_id(value@) {
            Some(number) => Some(ComparisonId(number)),
            None => None,
        }),
{
    match read_id(value) {
        Some(number) => Some(ComparisonId(number)),
        None => None,
    }
}

/// Reads an annotation identity.
pub fn parse_annotation_id(value: &str) -> (id: Option<AnnotationId>)
    ensures
        value@.len() == 0 ==> id is None,
        id == (match parsed_id(value@) {
            Some(number) => Some(AnnotationId(number)),
            None => None,
        }),
{
    match read_id(value) {
        Some(number) => Some(AnnotationId(number)),
        None => None,
    }
}

/// The identity behind `prefix` in a text.
pub open spec fn id_behind(prefix: Seq<char>, text: Seq<char>) -> Option<u128> {
    if prefix.is_prefix_of(text) {
        parsed_id(text.skip(prefix.len() as int))
    } else {
        None
    }
}

/// Reads the identity behind `prefix`; `None` where the text starts otherwise.
fn read_id_behind(prefix: &str, text: &str) -> (value: Option<Option<u128>>)
    ensures
        match value {
            Some(found) => prefix@.is_prefix_of(text@) && found == id_behind(prefix@, text@),
            None => !prefix@.is_prefix_of(text@),
        },
{
    match strip_prefix(text, prefix) {
        Some(rest) => {
            assert(text@.skip(prefix@.len() as int) =~= rest@);
            Some(read_id(rest))
        },
        None => None,
    }
}

/// Reads a history reference to an annotation set.
pub fn parse_history_set_id(value: &str) -> (id: Option<AnnotationSetId>)
    ensures
        id == (match id_behind("set:"@, value@) {
            Some(number) => Some(AnnotationSetId(number)),
            None => None,
        }),
{
    match read_id_behind("set:", value) {
        Some(Some(number)) => Some(AnnotationSetId(number)),
        _ => None,
    }
}

/// Reads a history reference to a review round.
pub fn parse_history_review_id(value: &str) -> (id: Option<ReviewSessionId>)
    ensures
        id == (match id_behind("review:"@, value@) {
            Some(number) => Some(ReviewSessionId(number)),
            None => None,
        }),
{
    match read_id_behind("review:", value) {
        Some(Some(number)) => Some(ReviewSessionId(number)),
        _ => None,
    }
}

/// What a prompt request refers to in the review history.
#[derive(Clone, Copy, Debug, PartialEq, Eq, Structural)]
pub enum PromptHistoryReference {
    /// A set of annotations.
    AnnotationSet(AnnotationSetId),
    /// A whole review round.
    Review(ReviewSessionId),
    /// A stored prompt.
    Export(PromptExportId),
}

/// The history item a text refers to, if it is well formed.
pub open spec fn history_reference(text: Seq<char>) -> Option<PromptHistoryReference> {
    if "set:"@.is_prefix_of(text) {
        match id_behind("set:"@, text) {
            Some(number) => Some(PromptHistoryReference::AnnotationSet(AnnotationSetId(number))),
            None => None,
        }
    } else if "review:"@.is_prefix_of(text) {
        match id_behind("review:"@, text) {
            Some(number) => Some(PromptHistoryReference::Review(ReviewSessionId(number))),
            None => None,
        }
    } else {
        match id_behind("export:"@, text) {
            Some(number) => Some(PromptHistoryReference::Export(PromptExportId(number))),
            None => None,
        }
    }
}

/// Reads an optional history reference. One that is there has to be well
/// formed.
pub fn parse_prompt_history_reference(value: Option<&str>) -> (result: Result<
    Option<PromptHistoryReference>,
    DispatchError,
>)
    ensures
        match value {
            None => result == Ok::<Option<PromptHistoryReference>, DispatchError>(None),
            Some(text) => match history_reference(text@) {
                Some(reference) => result == Ok::<
                    Option<PromptHistoryReference>,
                    DispatchError,
                >(Some(reference)),
                None => result matches Err(error) && error.is_invalid(
                    "unsupported prompt history id: "@ + text@,
                ),
            },
        },
{
    let text = match value {
        Some(text) => text,
        None => {
            return Ok(None);
        },
    };
    let found: Option<PromptHistoryReference> = match read_id_behind("set:", text) {
        Some(Some(number)) => Some(PromptHistoryReference::AnnotationSet(AnnotationSetId(number))),
        Some(None) => None,
        None => match read_id_behind("review:", text) {
            Some(Some(number)) => Some(PromptHistoryReference::Review(ReviewSessionId(number))),
            Some(None) => None,
            None => match read_id_behind("export:", text) {
                Some(Some(number)) => Some(
                    PromptHistoryReference::Export(PromptExportId(number)),
                ),
                _ => None,
            },
        },
    };
    match found {
        Some(reference) => Ok(Some(reference)),
        None => {
            let mut message = "unsupported prompt history id: ".to_owned();
            message.append(text);
            Err(DispatchError::Invalid(message))
        },
    }
}

} // verus!
