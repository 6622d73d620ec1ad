//! Source languages: which files are scanned, and how their comments look.

use vstd::prelude::*;

use crate::text::{copy_str, str_eq};

verus! {

/// How comments are written in a language.
#[derive(Debug, Clone, Copy, PartialEq, Eq, Structural)]
pub enum CommentStyle {
    /// `//` to the end of the line, and `/* */`.
    Slash,
    /// `#` to the end of the line.
    Hash,
    /// `#` to the end of the line, and `/* */`.
    HashBlock,
    /// `--` to the end of the line, and `/- -/`.
    Dash,
    /// As `Slash`, and `<!-- -->`.
    Markup,
}

/// A row of the language registry.
#[derive(Debug, Clone, Copy, PartialEq, Eq, Structural)]
pub enum Language {
    Rust,
    Swift,
    Go,
    Java,
    Kotlin,
    Scala,
    CFamily,
    Cpp,
    CSharp,
    Php,
    Dart,
    Zig,
    Groovy,
    TypeScript,
    Svelte,
    Json5,
    Python,
    Ruby,
    Shell,
    Yaml,
    Nix,
    Lean,
}

/// The language of a file extension.
pub open spec fn language(ext: Seq<char>) -> Option<Language> {
    if ext == "rs"@ {
        Some(Language::Rust)
    } else if ext == "swift"@ {
        Some(Language::Swift)
    } else if ext == "go"@ {
        Some(Language::Go)
    } else if ext == "java"@ {
        Some(Language::Java)
    } else if ext == "kt"@ || ext == "kts"@ {
        Some(Language::Kotlin)
    } else if ext == "scala"@ {
        Some(Language::Scala)
    } else if ext == "c"@ || ext == "h"@ {
        Some(Language::CFamily)
    } else if ext == "cpp"@ || ext == "cc"@ || ext == "cxx"@ || ext == "hpp"@ {
        Some(Language::Cpp)
    } else if ext == "cs"@ {
        Some(Language::CSharp)
    } else if ext == "php"@ {
        Some(Language::Php)
    } else if ext == "dart"@ {
        Some(Language::Dart)
    } else if ext == "zig"@ {
        Some(Language::Zig)
    } else if ext == "groovy"@ {
        Some(Language::Groovy)
    } else if ext == "ts"@ || ext == "tsx"@ || ext == "mts"@ || ext == "cts"@ || ext == "js"@ || ext
        == "jsx"@ || ext == "mjs"@ || ext == "cjs"@ {
        Some(Language::TypeScript)
    } else if ext == "svelte"@ {
        Some(Language::Svelte)
    } else if ext == "json5"@ {
        Some(Language::Json5)
    } else if ext == "py"@ {
        Some(Language::Python)
    } else if ext == "rb"@ {
        Some(Language::Ruby)
    } else if ext == "sh"@ || ext == "bash"@ {
        Some(Language::Shell)
    } else if ext == "yml"@ || ext == "yaml"@ {
        Some(Language::Yaml)
    } else if ext == "nix"@ {
        Some(Language::Nix)
    } else if ext == "lean"@ {
        Some(Language::Lean)
    } else {
        None
    }
}

/// How comments are written in a language.
pub open spec fn comment_style(l: Language) -> CommentStyle {
    match l {
        Language::Python | Language::Ruby | Language::Shell | Language::Yaml => CommentStyle::Hash,
        Language::Nix => CommentStyle::HashBlock,
        Language::Lean => CommentStyle::Dash,
        Language::Svelte => CommentStyle::Markup,
        _ => CommentStyle::Slash,
    }
}

/// File extensions that are scanned for references.
pub open spec fn supported_extensions() -> Seq<Seq<char>> {
    seq![
        "rs"@, "swift"@, "go"@, "java"@, "kt"@, "kts"@, "scala"@, "c"@, "h"@, "cpp"@, "cc"@,
        "cxx"@, "hpp"@, "cs"@, "php"@, "dart"@, "zig"@, "groovy"@, "ts"@, "tsx"@, "mts"@, "cts"@,
        "js"@, "jsx"@, "mjs"@, "cjs"@, "svelte"@, "json5"@, "py"@, "rb"@, "sh"@, "bash"@, "yml"@,
        "yaml"@, "nix"@, "lean"@,
    ]
}

/// The file extensions that are scanned for references.
pub fn supported_extension_list() -> (r: Vec<String>)
    ensures
        crate::text::texts(r@) == supported_extensions(),
{
    let names: [&'static str; 36] = [
        "rs", "swift", "go", "java", "kt", "kts", "scala", "c", "h", "cpp", "cc", "cxx", "hpp",
        "cs", "php", "dart", "zig", "groovy", "ts", "tsx", "mts", "cts", "js", "jsx", "mjs", "cjs",
        "svelte", "json5", "py", "rb", "sh", "bash", "yml", "yaml", "nix", "lean",
    ];
    let mut out: Vec<String> = Vec::new();
    let mut i: usize = 0;
    while i < 36
        invariant
            i <= 36,
            out@.len() == i,
            forall|k: int| 0 <= k < i ==> (#[trigger] out@[k])@ == names@[k]@,
        decreases 36 - i,
    {
        out.push(copy_str(names[i]));
        i = i + 1;
    }
    assert(crate::text::texts(out@) =~= supported_extensions());
    out
}

/// The language of a file extension.
pub fn language_of(ext: &str) -> (r: Option<Language>)
    ensures
        r == language(ext@),
{
    if str_eq(ext, "rs") {
        Some(Language::Rust)
    } else if str_eq(ext, "swift") {
        Some(Language::Swift)
    } else if str_eq(ext, "go") {
        Some(Language::Go)
    } else if str_eq(ext, "java") {
        Some(Language::Java)
    } else if str_eq(ext, "kt") || str_eq(ext, "kts") {
        Some(Language::Kotlin)
    } else if str_eq(ext, "scala") {
        Some(Language::Scala)
    } else if str_eq(ext, "c") || str_eq(ext, "h") {
        Some(Language::CFamily)
    } else if str_eq(ext, "cpp") || str_eq(ext, "cc") || str_eq(ext, "cxx") || str_eq(ext, "hpp") {
        Some(Language::Cpp)
    } else if str_eq(ext, "cs") {
        Some(Language::CSharp)
    } else if str_eq(ext, "php") {
        Some(Language::Php)
    } else if str_eq(ext, "dart") {
        Some(Language::Dart)
    } else if str_eq(ext, "zig") {
        Some(Language::Zig)
    } else if str_eq(ext, "groovy") {
        Some(Language::Groovy)
    } else if str_eq(ext, "ts") || str_eq(ext, "tsx") || str_eq(ext, "mts") || str_eq(ext, "cts")
        || str_eq(ext, "js") || str_eq(ext, "jsx") || str_eq(ext, "mjs") || str_eq(ext, "cjs") {
        Some(Language::TypeScript)
    } else if str_eq(ext, "svelte") {
        Some(Language::Svelte)
    } else if str_eq(ext, "json5") {
        Some(Language::Json5)
    } else if str_eq(ext, "py") {
        Some(Language::Python)
    } else if str_eq(ext, "rb") {
        Some(Language::Ruby)
    } else if str_eq(ext, "sh") || str_eq(ext, "bash") {
        Some(Language::Shell)
    } else if str_eq(ext, "yml") || str_eq(ext, "yaml") {
        Some(Language::Yaml)
    } else if str_eq(ext, "nix") {
        Some(Language::Nix)
    } else if str_eq(ext, "lean") {
        Some(Language::Lean)
    } else {
        None
    }
}

pub fn comment_style_of(l: Language) -> (r: CommentStyle)
    ensures
        r == comment_style(l),
{
    match l {
        Language::Python => CommentStyle::Hash,
        Language::Ruby => CommentStyle::Hash,
        Language::Shell => CommentStyle::Hash,
        Language::Yaml => CommentStyle::Hash,
        Language::Nix => CommentStyle::HashBlock,
        Language::Lean => CommentStyle::Dash,
        Language::Svelte => CommentStyle::Markup,
        _ => CommentStyle::Slash,
    }
}

/// Check if a file extension is supported for scanning.
pub fn is_supported_extension(ext: &str) -> (r: bool)
    ensures
        r == (language(ext@) is Some),
{
    language_of(ext).is_some()
}

/// The icon class that the registry holds for an extension.
pub open spec fn registered_devicon(ext: Seq<char>) -> Option<Seq<char>> {
    match language(ext) {
        Some(Language::Rust) => Some("devicon-rust-original"@),
        Some(Language::Swift) => Some("devicon-swift-plain"@),
        Some(Language::Go) => Some("devicon-go-plain"@),
        Some(Language::Java) => Some("devicon-java-plain"@),
        Some(Language::CFamily) => Some("devicon-c-plain"@),
        Some(Language::Cpp) => Some("devicon-cplusplus-plain"@),
        Some(Language::CSharp) => Some("devicon-csharp-plain"@),
        Some(Language::Php) => Some("devicon-php-plain"@),
        Some(Language::Dart) => Some("devicon-dart-plain"@),
        Some(Language::Python) => Some("devicon-python-plain"@),
        Some(Language::Ruby) => Some("devicon-ruby-plain"@),
        Some(Language::Shell) => Some("devicon-bash-plain"@),
        Some(Language::Nix) => Some("devicon-nixos-plain"@),
        _ => None,
    }
}

/// The icon class that the registry holds for an extension.
pub fn devicon_for_ext(ext: &str) -> (r: Option<&'static str>)
    ensures
        match (r, registered_devicon(ext@)) {
            (Some(a), Some(b)) => a@ == b,
            (None, None) => true,
            _ => false,
        },
{
    match language_of(ext) {
        Some(Language::Rust) => Some("devicon-rust-original"),
        Some(Language::Swift) => Some("devicon-swift-plain"),
        Some(Language::Go) => Some("devicon-go-plain"),
        Some(Language::Java) => Some("devicon-java-plain"),
        Some(Language::CFamily) => Some("devicon-c-plain"),
        Some(Language::Cpp) => Some("devicon-cplusplus-plain"),
        Some(Language::CSharp) => Some("devicon-csharp-plain"),
        Some(Language::Php) => Some("devicon-php-plain"),
        Some(Language::Dart) => Some("devicon-dart-plain"),
        Some(Language::Python) => Some("devicon-python-plain"),
        Some(Language::Ruby) => Some("devicon-ruby-plain"),
        Some(Language::Shell) => Some("devicon-bash-plain"),
        Some(Language::Nix) => Some("devicon-nixos-plain"),
        _ => None,
    }
}

/// The grammar that the registry holds for an extension.
pub open spec fn registered_grammar(ext: Seq<char>) -> Option<Seq<char>> {
    match language(ext) {
        Some(Language::Rust) => Some("rust"@),
        Some(Language::Swift) => Some("swift"@),
        Some(Language::Go) => Some("go"@),
        Some(Language::Java) => Some("java"@),
        Some(Language::CFamily) => Some("c"@),
        Some(Language::Cpp) => Some("cpp"@),
        Some(Language::CSharp) => Some("c-sharp"@),
        Some(Language::Php) => Some("php"@),
        Some(Language::Dart) => Some("dart"@),
        Some(Language::Python) => Some("python"@),
        Some(Language::Ruby) => Some("ruby"@),
        Some(Language::Shell) => Some("bash"@),
        Some(Language::Nix) => Some("nix"@),
        Some(Language::Lean) => Some("lean"@),
        _ => None,
    }
}

/// The grammar that the registry holds for an extension.
pub fn arborium_for_ext(ext: &str) -> (r: Option<&'static str>)
    ensures
        match (r, registered_grammar(ext@)) {
            (Some(a), Some(b)) => a@ == b,
            (None, None) => true,
            _ => false,
        },
{
    match language_of(ext) {
        Some(Language::Rust) => Some("rust"),
        Some(Language::Swift) => Some("swift"),
        Some(Language::Go) => Some("go"),
        Some(Language::Java) => Some("java"),
        Some(Language::CFamily) => Some("c"),
        Some(Language::Cpp) => Some("cpp"),
        Some(Language::CSharp) => Some("c-sharp"),
        Some(Language::Php) => Some("php"),
        Some(Language::Dart) => Some("dart"),
        Some(Language::Python) => Some("python"),
        Some(Language::Ruby) => Some("ruby"),
        Some(Language::Shell) => Some("bash"),
        Some(Language::Nix) => Some("nix"),
        Some(Language::Lean) => Some("lean"),
        _ => None,
    }
}

/// Every listed extension is one that is scanned.
pub proof fn law_listed_extensions_are_supported(i: int)
    requires
        0 <= i < supported_extensions().len(),
    ensures
        language(supported_extensions()[i]) is Some,
{
}

} // verus!
