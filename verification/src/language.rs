//! Language tags and the structure taxonomy: which node kinds of each
//! grammar count as named structures.

use vstd::prelude::*;
use vstd::string::StringSliceAdditionalSpecFns;
use crate::text::bytes_eq;

verus! {

/// The grammar a document is written in.
#[derive(Clone, Copy, Debug, PartialEq, Eq, Structural)]
pub enum LanguageTag {
    Rust,
    Python,
    Ruby,
}

/// Why a file's language could not be determined from its path.
#[derive(Clone, Copy, Debug, PartialEq, Eq, Structural)]
pub enum LanguageDetectionError {
    UnsupportedExtension,
    PowerShellNotHandled,
}

/// What is known of a path's extension: the language it stands for, or why
/// it stands for none. `rs` is Rust, `py` Python, `rb` Ruby; `ps1` is
/// PowerShell, which is recognised and not handled; every other extension,
/// and a path without one, is unsupported.
pub open spec fn detected(extension: Option<Seq<u8>>) -> Result<LanguageTag, LanguageDetectionError> {
    match extension {
        Some(ext) => if ext == "rs".spec_bytes() {
            Ok(LanguageTag::Rust)
        } else if ext == "py".spec_bytes() {
            Ok(LanguageTag::Python)
        } else if ext == "rb".spec_bytes() {
            Ok(LanguageTag::Ruby)
        } else if ext == "ps1".spec_bytes() {
            Err(LanguageDetectionError::PowerShellNotHandled)
        } else {
            Err(LanguageDetectionError::UnsupportedExtension)
        },
        None => Err(LanguageDetectionError::UnsupportedExtension),
    }
}

/// The bytes of an optional string.
pub open spec fn extension_view(extension: Option<&str>) -> Option<Seq<u8>> {
    match extension {
        Some(ext) => Some(ext.spec_bytes()),
        None => None,
    }
}

impl LanguageDetectionError {
    /// The error in words.
    pub fn message(&self) -> (text: String)
        ensures
            text@ == match *self {
                LanguageDetectionError::UnsupportedExtension => "unsupported file extension"@,
                LanguageDetectionError::PowerShellNotHandled => "Powershell is not handled"@,
            },
    {
        match self {
            LanguageDetectionError::UnsupportedExtension => String::from_str(
                "unsupported file extension",
            ),
            LanguageDetectionError::PowerShellNotHandled => String::from_str(
                "Powershell is not handled",
            ),
        }
    }
}

/// `extension` stands in `path` directly behind the full stop at `at`.
pub open spec fn follows_dot(path: Seq<char>, at: int, extension: Seq<char>) -> bool {
    &&& 0 <= at
    &&& at + 1 + extension.len() <= path.len()
    &&& path[at] == '.'
    &&& path.subrange(at + 1, at + 1 + extension.len()) == extension
}

/// What holds of the extension of a path on every platform: it holds no
/// full stop, and it stands in the path directly behind one.
pub open spec fn is_extension_of(path: Seq<char>, extension: Seq<char>) -> bool {
    &&& !extension.contains('.')
    &&& exists|at: int| #[trigger] follows_dot(path, at, extension)
}

/// `std::path::Path::extension` on `file_path`, as a string where it is
/// valid UTF-8. What counts as the file name of a path depends on the
/// platform, so the outcome has no name. On every platform the extension is
/// the part of the file name behind its last full stop: that much is
/// claimed of it.
#[verifier::external_body]
fn path_extension(file_path: &str) -> (extension: Option<String>)
    ensures
        extension matches Some(ext) ==> is_extension_of(file_path@, ext@),
{
    std::path::Path::new(file_path).extension().and_then(|ext| ext.to_str()).map(String::from)
}

/// The language that an extension stands for: see `detected`.
pub fn language_for_extension(extension: Option<&str>) -> (language: Result<
    LanguageTag,
    LanguageDetectionError,
>)
    ensures
        language == detected(extension_view(extension)),
{
    match extension {
        Some(ext) => {
            let bytes = ext.as_bytes();
            if bytes_eq(bytes, "rs".as_bytes()) {
                Ok(LanguageTag::Rust)
            } else if bytes_eq(bytes, "py".as_bytes()) {
                Ok(LanguageTag::Python)
            } else if bytes_eq(bytes, "rb".as_bytes()) {
                Ok(LanguageTag::Ruby)
            } else if bytes_eq(bytes, "ps1".as_bytes()) {
                Err(LanguageDetectionError::PowerShellNotHandled)
            } else {
                Err(LanguageDetectionError::UnsupportedExtension)
            }
        },
        None => Err(LanguageDetectionError::UnsupportedExtension),
    }
}

/// Detects the language of a file from the extension of its path. The
/// platform decides which extension a path has; the result is what
/// `detected` makes of it. On every platform the extension stands in the
/// path behind a full stop, so a path without a full stop is unsupported.
pub fn detect_language(file_path: &str) -> (language: Result<LanguageTag, LanguageDetectionError>)
    ensures
        exists|extension: Option<Seq<char>>|
            {
                &&& language == #[trigger] detected(encoded(extension))
                &&& extension matches Some(ext) ==> is_extension_of(file_path@, ext)
            },
        !file_path@.contains('.') ==> language == Err::<LanguageTag, _>(
            LanguageDetectionError::UnsupportedExtension,
        ),
{
    let extension = path_extension(file_path);
    let language = match &extension {
        Some(ext) => language_for_extension(Some(ext.as_str())),
        None => language_for_extension(None),
    };
    proof {
        let witness: Option<Seq<char>> = match extension {
            Some(ext) => Some(ext@),
            None => None,
        };
        assert(language == detected(encoded(witness)));
        if witness is Some {
            let at = choose|at: int| follows_dot(file_path@, at, witness->Some_0);
            assert(file_path@[at] == '.');
        }
    }
    language
}

/// The bytes of an optional text, in UTF-8.
pub open spec fn encoded(text: Option<Seq<char>>) -> Option<Seq<u8>> {
    match text {
        Some(t) => Some(vstd::utf8::encode_utf8(t)),
        None => None,
    }
}

/// The validator's command for a file in `language`, among the commands
/// that are configured for each language.
pub fn lint_command_for<'a>(
    language: LanguageTag,
    rust: Option<&'a str>,
    python: Option<&'a str>,
    ruby: Option<&'a str>,
) -> (command: Option<&'a str>)
    ensures
        command == match language {
            LanguageTag::Rust => rust,
            LanguageTag::Python => python,
            LanguageTag::Ruby => ruby,
        },
{
    match language {
        LanguageTag::Rust => rust,
        LanguageTag::Python => python,
        LanguageTag::Ruby => ruby,
    }
}

/// The taxonomy as a table: the node kinds that `language` treats as named
/// structures.
pub open spec fn structure_kinds(language: LanguageTag) -> Seq<Seq<u8>> {
    match language {
        LanguageTag::Rust => seq![
            "function_item".spec_bytes(),
            "mod_item".spec_bytes(),
            "struct_item".spec_bytes(),
            "enum_item".spec_bytes(),
            "trait_item".spec_bytes(),
            "impl_item".spec_bytes(),
        ],
        LanguageTag::Python => seq![
            "function_definition".spec_bytes(),
            "class_definition".spec_bytes(),
            "module".spec_bytes(),
        ],
        LanguageTag::Ruby => seq![
            "method".spec_bytes(),
            "class".spec_bytes(),
            "module".spec_bytes(),
        ],
    }
}

/// The field that carries the identifier of a structure: in every grammar
/// of the taxonomy, the field `name`.
pub fn name_field() -> (field: &'static str)
    ensures
        field@ == "name"@,
{
    "name"
}

/// `kind` is one of the structure kinds of `language`.
pub open spec fn is_structure_kind(language: LanguageTag, kind: Seq<u8>) -> bool {
    structure_kinds(language).contains(kind)
}

/// Looks `kind` up in the taxonomy of `language`.
pub fn structure_kind(language: LanguageTag, kind: &[u8]) -> (listed: bool)
    ensures
        listed == is_structure_kind(language, kind@),
{
    let ghost table = structure_kinds(language);
    let listed = match language {
        LanguageTag::Rust => {
            assert(table.len() == 6);
            bytes_eq(kind, "function_item".as_bytes()) || bytes_eq(kind, "mod_item".as_bytes())
                || bytes_eq(kind, "struct_item".as_bytes()) || bytes_eq(
                kind,
                "enum_item".as_bytes(),
            ) || bytes_eq(kind, "trait_item".as_bytes()) || bytes_eq(kind, "impl_item".as_bytes())
        },
        LanguageTag::Python => {
            assert(table.len() == 3);
            bytes_eq(kind, "function_definition".as_bytes()) || bytes_eq(
                kind,
                "class_definition".as_bytes(),
            ) || bytes_eq(kind, "module".as_bytes())
        },
        LanguageTag::Ruby => {
            assert(table.len() == 3);
            bytes_eq(kind, "method".as_bytes()) || bytes_eq(kind, "class".as_bytes()) || bytes_eq(
                kind,
                "module".as_bytes(),
            )
        },
    };
    proof {
        if listed {
            let i = choose|i: int| 0 <= i < table.len() && table[i] == kind@;
            assert(table[i] == kind@);
        } else {
            assert forall|i: int| 0 <= i < table.len() implies table[i] != kind@ by {}
        }
    }
    listed
}

} // verus!
