//! Language identifiers that editors send, and their names.

use vstd::prelude::*;

use crate::text::str_eq;

verus! {

/// Language type wrapper from lsp
#[allow(non_camel_case_types)]
#[derive(Debug, Clone, Copy, PartialEq, Eq, Structural, Hash, PartialOrd, Ord)]
pub enum Language {
    AsciiDoc,
    Astro,
    Bash,
    Biome,
    C,
    CSharp,
    CPlusPlus,
    Clojure,
    CSS,
    CSV,
    Crystal,
    D,
    Dart,
    Deno,
    Docker,
    Elixir,
    Elm,
    Emmet,
    Erlang,
    Fish,
    FSharp,
    GDScript,
    GitCommit,
    Gleam,
    GLSL,
    Go,
    GraphQL,
    Groovy,
    Haskell,
    HEEX,
    HTML,
    Hy,
    Idris,
    Java,
    JavaScript,
    JSON,
    JSONC,
    Julia,
    Kotlin,
    LaTeX,
    Lua,
    Luau,
    Makefile,
    Markdown,
    Nim,
    Nix,
    OCaml,
    PHP,
    PlainText,
    Prisma,
    Proto,
    PureScript,
    Python,
    R,
    Racket,
    Rego,
    reST,
    ReStructuredText,
    Roc,
    Ruby,
    Rust,
    Scala,
    Scheme,
    SCSS,
    ShellScript,
    SQL,
    Svelte,
    Swift,
    TailwindCSS,
    Terraform,
    TOML,
    TSX,
    TypeScript,
    Typst,
    Uiua,
    Vue,
    VueJs,
    WIT,
    XML,
    YAML,
    Yarn,
    Zig,
    Unknown,
}

/// The identifier by which an editor names `l`.
pub open spec fn language_name(l: Language) -> Seq<char> {
    match l {
        Language::AsciiDoc => "AsciiDoc"@,
        Language::Astro => "Astro"@,
        Language::Bash => "Bash"@,
        Language::Biome => "Biome"@,
        Language::C => "C"@,
        Language::CSharp => "C#"@,
        Language::CPlusPlus => "C++"@,
        Language::Clojure => "Clojure"@,
        Language::CSS => "CSS"@,
        Language::CSV => "CSV"@,
        Language::Crystal => "Crystal"@,
        Language::D => "D"@,
        Language::Dart => "Dart"@,
        Language::Deno => "Deno"@,
        Language::Docker => "Docker"@,
        Language::Elixir => "Elixir"@,
        Language::Elm => "Elm"@,
        Language::Emmet => "Emmet"@,
        Language::Erlang => "Erlang"@,
        Language::Fish => "Fish"@,
        Language::FSharp => "FSharp"@,
        Language::GDScript => "GDScript"@,
        Language::GitCommit => "Git Commit"@,
        Language::Gleam => "Gleam"@,
        Language::GLSL => "GLSL"@,
        Language::Go => "Go"@,
        Language::GraphQL => "GraphQL"@,
        Language::Groovy => "Groovy"@,
        Language::Haskell => "Haskell"@,
        Language::HEEX => "HEEX"@,
        Language::HTML => "HTML"@,
        Language::Hy => "Hy"@,
        Language::Idris => "Idris"@,
        Language::Java => "Java"@,
        Language::JavaScript => "JavaScript"@,
        Language::JSON => "JSON"@,
        Language::JSONC => "JSONC"@,
        Language::Julia => "Julia"@,
        Language::Kotlin => "Kotlin"@,
        Language::LaTeX => "LaTeX"@,
        Language::Lua => "Lua"@,
        Language::Luau => "Luau"@,
        Language::Makefile => "Makefile"@,
        Language::Markdown => "Markdown"@,
        Language::Nim => "Nim"@,
        Language::Nix => "Nix"@,
        Language::OCaml => "OCaml"@,
        Language::PHP => "PHP"@,
        Language::PlainText => "Plain Text"@,
        Language::Prisma => "Prisma"@,
        Language::Proto => "Proto"@,
        Language::PureScript => "PureScript"@,
        Language::Python => "Python"@,
        Language::R => "R"@,
        Language::Racket => "Racket"@,
        Language::Rego => "Rego"@,
        Language::reST => "reST"@,
        Language::ReStructuredText => "ReStructuredText"@,
        Language::Roc => "Roc"@,
        Language::Ruby => "Ruby"@,
        Language::Rust => "Rust"@,
        Language::Scala => "Scala"@,
        Language::Scheme => "Scheme"@,
        Language::SCSS => "SCSS"@,
        Language::ShellScript => "Shell Script"@,
        Language::SQL => "SQL"@,
        Language::Svelte => "Svelte"@,
        Language::Swift => "Swift"@,
        Language::TailwindCSS => "TailwindCSS"@,
        Language::Terraform => "Terraform"@,
        Language::TOML => "TOML"@,
        Language::TSX => "TSX"@,
        Language::TypeScript => "TypeScript"@,
        Language::Typst => "Typst"@,
        Language::Uiua => "Uiua"@,
        Language::Vue => "Vue"@,
        Language::VueJs => "Vue.js"@,
        Language::WIT => "WIT"@,
        Language::XML => "XML"@,
        Language::YAML => "YAML"@,
        Language::Yarn => "Yarn"@,
        Language::Zig => "Zig"@,
        Language::Unknown => "Unknown"@,
    }
}

impl Language {
    /// The identifier by which an editor names this language.
    pub fn name(&self) -> (s: &'static str)
        ensures
            s@ == language_name(*self),
    {
        match self {
            Language::AsciiDoc => "AsciiDoc",
            Language::Astro => "Astro",
            Language::Bash => "Bash",
            Language::Biome => "Biome",
            Language::C => "C",
            Language::CSharp => "C#",
            Language::CPlusPlus => "C++",
            Language::Clojure => "Clojure",
            Language::CSS => "CSS",
            Language::CSV => "CSV",
            Language::Crystal => "Crystal",
            Language::D => "D",
            Language::Dart => "Dart",
            Language::Deno => "Deno",
            Language::Docker => "Docker",
            Language::Elixir => "Elixir",
            Language::Elm => "Elm",
            Language::Emmet => "Emmet",
            Language::Erlang => "Erlang",
            Language::Fish => "Fish",
            Language::FSharp => "FSharp",
            Language::GDScript => "GDScript",
            Language::GitCommit => "Git Commit",
            Language::Gleam => "Gleam",
            Language::GLSL => "GLSL",
            Language::Go => "Go",
            Language::GraphQL => "GraphQL",
            Language::Groovy => "Groovy",
            Language::Haskell => "Haskell",
            Language::HEEX => "HEEX",
            Language::HTML => "HTML",
            Language::Hy => "Hy",
            Language::Idris => "Idris",
            Language::Java => "Java",
            Language::JavaScript => "JavaScript",
            Language::JSON => "JSON",
            Language::JSONC => "JSONC",
            Language::Julia => "Julia",
            Language::Kotlin => "Kotlin",
            Language::LaTeX => "LaTeX",
            Language::Lua => "Lua",
            Language::Luau => "Luau",
            Language::Makefile => "Makefile",
            Language::Markdown => "Markdown",
            Language::Nim => "Nim",
            Language::Nix => "Nix",
            Language::OCaml => "OCaml",
            Language::PHP => "PHP",
            Language::PlainText => "Plain Text",
            Language::Prisma => "Prisma",
            Language::Proto => "Proto",
            Language::PureScript => "PureScript",
            Language::Python => "Python",
            Language::R => "R",
            Language::Racket => "Racket",
            Language::Rego => "Rego",
            Language::reST => "reST",
            Language::ReStructuredText => "ReStructuredText",
            Language::Roc => "Roc",
            Language::Ruby => "Ruby",
            Language::Rust => "Rust",
            Language::Scala => "Scala",
            Language::Scheme => "Scheme",
            Language::SCSS => "SCSS",
            Language::ShellScript => "Shell Script",
            Language::SQL => "SQL",
            Language::Svelte => "Svelte",
            Language::Swift => "Swift",
            Language::TailwindCSS => "TailwindCSS",
            Language::Terraform => "Terraform",
            Language::TOML => "TOML",
            Language::TSX => "TSX",
            Language::TypeScript => "TypeScript",
            Language::Typst => "Typst",
            Language::Uiua => "Uiua",
            Language::Vue => "Vue",
            Language::VueJs => "Vue.js",
            Language::WIT => "WIT",
            Language::XML => "XML",
            Language::YAML => "YAML",
            Language::Yarn => "Yarn",
            Language::Zig => "Zig",
            Language::Unknown => "Unknown",
        }
    }

    /// The language whose identifier is `language_id`, or `Unknown`.
    pub fn from_id(language_id: &str) -> (l: Language)
        ensures
            (exists|k: Language| language_name(k) == language_id@) ==> language_name(l)
                == language_id@,
            !(exists|k: Language| language_name(k) == language_id@) ==> l == Language::Unknown,
            forall|k: Language| #[trigger] language_name(k) == language_id@ ==> l == k,
    {
        let l = from_identifier(language_id);
        proof {
            assert forall|k: Language| #[trigger] language_name(k) == language_id@ implies l == k by {
                lemma_language_name_injective(l, k);
            }
        }
        l
    }
}

fn from_identifier(language_id: &str) -> (l: Language)
    ensures
        (exists|k: Language| language_name(k) == language_id@) ==> language_name(l)
            == language_id@,
        !(exists|k: Language| language_name(k) == language_id@) ==> l == Language::Unknown,
{
    if str_eq(language_id, "AsciiDoc") {
        assert(language_name(Language::AsciiDoc) == language_id@);
        return Language::AsciiDoc;
    }
    if str_eq(language_id, "Astro") {
        assert(language_name(Language::Astro) == language_id@);
        return Language::Astro;
    }
    if str_eq(language_id, "Bash") {
        assert(language_name(Language::Bash) == language_id@);
        return Language::Bash;
    }
    if str_eq(language_id, "Biome") {
        assert(language_name(Language::Biome) == language_id@);
        return Language::Biome;
    }
    if str_eq(language_id, "C") {
        assert(language_name(Language::C) == language_id@);
        return Language::C;
    }
    if str_eq(language_id, "C#") {
        assert(language_name(Language::CSharp) == language_id@);
        return Language::CSharp;
    }
    if str_eq(language_id, "C++") {
        assert(language_name(Language::CPlusPlus) == language_id@);
        return Language::CPlusPlus;
    }
    if str_eq(language_id, "Clojure") {
        assert(language_name(Language::Clojure) == language_id@);
        return Language::Clojure;
    }
    if str_eq(language_id, "CSS") {
        assert(language_name(Language::CSS) == language_id@);
        return Language::CSS;
    }
    if str_eq(language_id, "CSV") {
        assert(language_name(Language::CSV) == language_id@);
        return Language::CSV;
    }
    if str_eq(language_id, "Crystal") {
        assert(language_name(Language::Crystal) == language_id@);
        return Language::Crystal;
    }
    if str_eq(language_id, "D") {
        assert(language_name(Language::D) == language_id@);
        return Language::D;
    }
    if str_eq(language_id, "Dart") {
        assert(language_name(Language::Dart) == language_id@);
        return Language::Dart;
    }
    if str_eq(language_id, "Deno") {
        assert(language_name(Language::Deno) == language_id@);
        return Language::Deno;
    }
    if str_eq(language_id, "Docker") {
        assert(language_name(Language::Docker) == language_id@);
        return Language::Docker;
    }
    if str_eq(language_id, "Elixir") {
        assert(language_name(Language::Elixir) == language_id@);
        return Language::Elixir;
    }
    if str_eq(language_id, "Elm") {
        assert(language_name(Language::Elm) == language_id@);
        return Language::Elm;
    }
    if str_eq(language_id, "Emmet") {
        assert(language_name(Language::Emmet) == language_id@);
        return Language::Emmet;
    }
    if str_eq(language_id, "Erlang") {
        assert(language_name(Language::Erlang) == language_id@);
        return Language::Erlang;
    }
    if str_eq(language_id, "Fish") {
        assert(language_name(Language::Fish) == language_id@);
        return Language::Fish;
    }
    if str_eq(language_id, "FSharp") {
        assert(language_name(Language::FSharp) == language_id@);
        return Language::FSharp;
    }
    if str_eq(language_id, "GDScript") {
        assert(language_name(Language::GDScript) == language_id@);
        return Language::GDScript;
    }
    if str_eq(language_id, "Git Commit") {
        assert(language_name(Language::GitCommit) == language_id@);
        return Language::GitCommit;
    }
    if str_eq(language_id, "Gleam") {
        assert(language_name(Language::Gleam) == language_id@);
        return Language::Gleam;
    }
    if str_eq(language_id, "GLSL") {
        assert(language_name(Language::GLSL) == language_id@);
        return Language::GLSL;
    }
    if str_eq(language_id, "Go") {
        assert(language_name(Language::Go) == language_id@);
        return Language::Go;
    }
    if str_eq(language_id, "GraphQL") {
        assert(language_name(Language::GraphQL) == language_id@);
        return Language::GraphQL;
    }
    if str_eq(language_id, "Groovy") {
        assert(language_name(Language::Groovy) == language_id@);
        return Language::Groovy;
    }
    if str_eq(language_id, "Haskell") {
        assert(language_name(Language::Haskell) == language_id@);
        return Language::Haskell;
    }
    if str_eq(language_id, "HEEX") {
        assert(language_name(Language::HEEX) == language_id@);
        return Language::HEEX;
    }
    if str_eq(language_id, "HTML") {
        assert(language_name(Language::HTML) == language_id@);
        return Language::HTML;
    }
    if str_eq(language_id, "Hy") {
        assert(language_name(Language::Hy) == language_id@);
        return Language::Hy;
    }
    if str_eq(language_id, "Idris") {
        assert(language_name(Language::Idris) == language_id@);
        return Language::Idris;
    }
    if str_eq(language_id, "Java") {
        assert(language_name(Language::Java) == language_id@);
        return Language::Java;
    }
    if str_eq(language_id, "JavaScript") {
        assert(language_name(Language::JavaScript) == language_id@);
        return Language::JavaScript;
    }
    if str_eq(language_id, "JSON") {
        assert(language_name(Language::JSON) == language_id@);
        return Language::JSON;
    }
    if str_eq(language_id, "JSONC") {
        assert(language_name(Language::JSONC) == language_id@);
        return Language::JSONC;
    }
    if str_eq(language_id, "Julia") {
        assert(language_name(Language::Julia) == language_id@);
        return Language::Julia;
    }
    if str_eq(language_id, "Kotlin") {
        assert(language_name(Language::Kotlin) == language_id@);
        return Language::Kotlin;
    }
    if str_eq(language_id, "LaTeX") {
        assert(language_name(Language::LaTeX) == language_id@);
        return Language::LaTeX;
    }
    if str_eq(language_id, "Lua") {
        assert(language_name(Language::Lua) == language_id@);
        return Language::Lua;
    }
    if str_eq(language_id, "Luau") {
        assert(language_name(Language::Luau) == language_id@);
        return Language::Luau;
    }
    if str_eq(language_id, "Makefile") {
        assert(language_name(Language::Makefile) == language_id@);
        return Language::Makefile;
    }
    if str_eq(language_id, "Markdown") {
        assert(language_name(Language::Markdown) == language_id@);
        return Language::Markdown;
    }
    if str_eq(language_id, "Nim") {
        assert(language_name(Language::Nim) == language_id@);
        return Language::Nim;
    }
    if str_eq(language_id, "Nix") {
        assert(language_name(Language::Nix) == language_id@);
        return Language::Nix;
    }
    if str_eq(language_id, "OCaml") {
        assert(language_name(Language::OCaml) == language_id@);
        return Language::OCaml;
    }
    if str_eq(language_id, "PHP") {
        assert(language_name(Language::PHP) == language_id@);
        return Language::PHP;
    }
    if str_eq(language_id, "Plain Text") {
        assert(language_name(Language::PlainText) == language_id@);
        return Language::PlainText;
    }
    if str_eq(language_id, "Prisma") {
        assert(language_name(Language::Prisma) == language_id@);
        return Language::Prisma;
    }
    if str_eq(language_id, "Proto") {
        assert(language_name(Language::Proto) == language_id@);
        return Language::Proto;
    }
    if str_eq(language_id, "PureScript") {
        assert(language_name(Language::PureScript) == language_id@);
        return Language::PureScript;
    }
    if str_eq(language_id, "Python") {
        assert(language_name(Language::Python) == language_id@);
        return Language::Python;
    }
    if str_eq(language_id, "R") {
        assert(language_name(Language::R) == language_id@);
        return Language::R;
    }
    if str_eq(language_id, "Racket") {
        assert(language_name(Language::Racket) == language_id@);
        return Language::Racket;
    }
    if str_eq(language_id, "Rego") {
        assert(language_name(Language::Rego) == language_id@);
        return Language::Rego;
    }
    if str_eq(language_id, "reST") {
        assert(language_name(Language::reST) == language_id@);
        return Language::reST;
    }
    if str_eq(language_id, "ReStructuredText") {
        assert(language_name(Language::ReStructuredText) == language_id@);
        return Language::ReStructuredText;
    }
    if str_eq(language_id, "Roc") {
        assert(language_name(Language::Roc) == language_id@);
        return Language::Roc;
    }
    if str_eq(language_id, "Ruby") {
        assert(language_name(Language::Ruby) == language_id@);
        return Language::Ruby;
    }
    if str_eq(language_id, "Rust") {
        assert(language_name(Language::Rust) == language_id@);
        return Language::Rust;
    }
    if str_eq(language_id, "Scala") {
        assert(language_name(Language::Scala) == language_id@);
        return Language::Scala;
    }
    if str_eq(language_id, "Scheme") {
        assert(language_name(Language::Scheme) == language_id@);
        return Language::Scheme;
    }
    if str_eq(language_id, "SCSS") {
        assert(language_name(Language::SCSS) == language_id@);
        return Language::SCSS;
    }
    if str_eq(language_id, "Shell Script") {
        assert(language_name(Language::ShellScript) == language_id@);
        return Language::ShellScript;
    }
    if str_eq(language_id, "SQL") {
        assert(language_name(Language::SQL) == language_id@);
        return Language::SQL;
    }
    if str_eq(language_id, "Svelte") {
        assert(language_name(Language::Svelte) == language_id@);
        return Language::Svelte;
    }
    if str_eq(language_id, "Swift") {
        assert(language_name(Language::Swift) == language_id@);
        return Language::Swift;
    }
    if str_eq(language_id, "TailwindCSS") {
        assert(language_name(Language::TailwindCSS) == language_id@);
        return Language::TailwindCSS;
    }
    if str_eq(language_id, "Terraform") {
        assert(language_name(Language::Terraform) == language_id@);
        return Language::Terraform;
    }
    if str_eq(language_id, "TOML") {
        assert(language_name(Language::TOML) == language_id@);
        return Language::TOML;
    }
    if str_eq(language_id, "TSX") {
        assert(language_name(Language::TSX) == language_id@);
        return Language::TSX;
    }
    if str_eq(language_id, "TypeScript") {
        assert(language_name(Language::TypeScript) == language_id@);
        return Language::TypeScript;
    }
    if str_eq(language_id, "Typst") {
        assert(language_name(Language::Typst) == language_id@);
        return Language::Typst;
    }
    if str_eq(language_id, "Uiua") {
        assert(language_name(Language::Uiua) == language_id@);
        return Language::Uiua;
    }
    if str_eq(language_id, "Vue") {
        assert(language_name(Language::Vue) == language_id@);
        return Language::Vue;
    }
    if str_eq(language_id, "Vue.js") {
        assert(language_name(Language::VueJs) == language_id@);
        return Language::VueJs;
    }
    if str_eq(language_id, "WIT") {
        assert(language_name(Language::WIT) == language_id@);
        return Language::WIT;
    }
    if str_eq(language_id, "XML") {
        assert(language_name(Language::XML) == language_id@);
        return Language::XML;
    }
    if str_eq(language_id, "YAML") {
        assert(language_name(Language::YAML) == language_id@);
        return Language::YAML;
    }
    if str_eq(language_id, "Yarn") {
        assert(language_name(Language::Yarn) == language_id@);
        return Language::Yarn;
    }
    if str_eq(language_id, "Zig") {
        assert(language_name(Language::Zig) == language_id@);
        return Language::Zig;
    }
    if str_eq(language_id, "Unknown") {
        assert(language_name(Language::Unknown) == language_id@);
        return Language::Unknown;
    }
    proof {
        assert forall|k: Language| language_name(k) != language_id@ by {
            match k {
                _ => {},
            }
        }
    }
    Language::Unknown
}

/// The language named `s` (`Unknown` where none is).
pub open spec fn language_named(s: Seq<char>) -> Language {
    if s.len() == 1 {
        if s == "C"@ {
            Language::C
        } else if s == "D"@ {
            Language::D
        } else if s == "R"@ {
            Language::R
        } else {
            Language::Unknown
        }
    } else if s.len() == 2 {
        if s == "C#"@ {
            Language::CSharp
        } else if s == "Go"@ {
            Language::Go
        } else if s == "Hy"@ {
            Language::Hy
        } else {
            Language::Unknown
        }
    } else if s.len() == 3 {
        if s == "C++"@ {
            Language::CPlusPlus
        } else if s == "CSS"@ {
            Language::CSS
        } else if s == "CSV"@ {
            Language::CSV
        } else if s == "Elm"@ {
            Language::Elm
        } else if s == "Lua"@ {
            Language::Lua
        } else if s == "Nim"@ {
            Language::Nim
        } else if s == "Nix"@ {
            Language::Nix
        } else if s == "PHP"@ {
            Language::PHP
        } else if s == "Roc"@ {
            Language::Roc
        } else if s == "SQL"@ {
            Language::SQL
        } else if s == "TSX"@ {
            Language::TSX
        } else if s == "Vue"@ {
            Language::Vue
        } else if s == "WIT"@ {
            Language::WIT
        } else if s == "XML"@ {
            Language::XML
        } else if s == "Zig"@ {
            Language::Zig
        } else {
            Language::Unknown
        }
    } else if s.len() == 4 {
        if s == "Bash"@ {
            Language::Bash
        } else if s == "Dart"@ {
            Language::Dart
        } else if s == "Deno"@ {
            Language::Deno
        } else if s == "Fish"@ {
            Language::Fish
        } else if s == "GLSL"@ {
            Language::GLSL
        } else if s == "HEEX"@ {
            Language::HEEX
        } else if s == "HTML"@ {
            Language::HTML
        } else if s == "Java"@ {
            Language::Java
        } else if s == "JSON"@ {
            Language::JSON
        } else if s == "Luau"@ {
            Language::Luau
        } else if s == "Rego"@ {
            Language::Rego
        } else if s == "reST"@ {
            Language::reST
        } else if s == "Ruby"@ {
            Language::Ruby
        } else if s == "Rust"@ {
            Language::Rust
        } else if s == "SCSS"@ {
            Language::SCSS
        } else if s == "TOML"@ {
            Language::TOML
        } else if s == "Uiua"@ {
            Language::Uiua
        } else if s == "YAML"@ {
            Language::YAML
        } else if s == "Yarn"@ {
            Language::Yarn
        } else {
            Language::Unknown
        }
    } else if s.len() == 5 {
        if s == "Astro"@ {
            Language::Astro
        } else if s == "Biome"@ {
            Language::Biome
        } else if s == "Emmet"@ {
            Language::Emmet
        } else if s == "Gleam"@ {
            Language::Gleam
        } else if s == "Idris"@ {
            Language::Idris
        } else if s == "JSONC"@ {
            Language::JSONC
        } else if s == "Julia"@ {
            Language::Julia
        } else if s == "LaTeX"@ {
            Language::LaTeX
        } else if s == "OCaml"@ {
            Language::OCaml
        } else if s == "Proto"@ {
            Language::Proto
        } else if s == "Scala"@ {
            Language::Scala
        } else if s == "Swift"@ {
            Language::Swift
        } else if s == "Typst"@ {
            Language::Typst
        } else {
            Language::Unknown
        }
    } else if s.len() == 6 {
        if s == "Docker"@ {
            Language::Docker
        } else if s == "Elixir"@ {
            Language::Elixir
        } else if s == "Erlang"@ {
            Language::Erlang
        } else if s == "FSharp"@ {
            Language::FSharp
        } else if s == "Groovy"@ {
            Language::Groovy
        } else if s == "Kotlin"@ {
            Language::Kotlin
        } else if s == "Prisma"@ {
            Language::Prisma
        } else if s == "Python"@ {
            Language::Python
        } else if s == "Racket"@ {
            Language::Racket
        } else if s == "Scheme"@ {
            Language::Scheme
        } else if s == "Svelte"@ {
            Language::Svelte
        } else if s == "Vue.js"@ {
            Language::VueJs
        } else {
            Language::Unknown
        }
    } else if s.len() == 7 {
        if s == "Clojure"@ {
            Language::Clojure
        } else if s == "Crystal"@ {
            Language::Crystal
        } else if s == "GraphQL"@ {
            Language::GraphQL
        } else if s == "Haskell"@ {
            Language::Haskell
        } else if s == "Unknown"@ {
            Language::Unknown
        } else {
            Language::Unknown
        }
    } else if s.len() == 8 {
        if s == "AsciiDoc"@ {
            Language::AsciiDoc
        } else if s == "GDScript"@ {
            Language::GDScript
        } else if s == "Makefile"@ {
            Language::Makefile
        } else if s == "Markdown"@ {
            Language::Markdown
        } else {
            Language::Unknown
        }
    } else if s.len() == 9 {
        if s == "Terraform"@ {
            Language::Terraform
        } else {
            Language::Unknown
        }
    } else if s.len() == 10 {
        if s == "Git Commit"@ {
            Language::GitCommit
        } else if s == "JavaScript"@ {
            Language::JavaScript
        } else if s == "Plain Text"@ {
            Language::PlainText
        } else if s == "PureScript"@ {
            Language::PureScript
        } else if s == "TypeScript"@ {
            Language::TypeScript
        } else {
            Language::Unknown
        }
    } else if s.len() == 11 {
        if s == "TailwindCSS"@ {
            Language::TailwindCSS
        } else {
            Language::Unknown
        }
    } else if s.len() == 12 {
        if s == "Shell Script"@ {
            Language::ShellScript
        } else {
            Language::Unknown
        }
    } else if s.len() == 16 {
        if s == "ReStructuredText"@ {
            Language::ReStructuredText
        } else {
            Language::Unknown
        }
    } else {
        Language::Unknown
    }
}

proof fn lemma_names_part_0(l: Language)
    requires
        l == Language::AsciiDoc || l == Language::Astro || l == Language::Bash || l == Language::Biome || l == Language::C || l == Language::CSharp,
    ensures
        language_named(language_name(l)) == l,
{
    match l {
        Language::AsciiDoc => {
            reveal_strlit("AsciiDoc");
            assert(language_named(language_name(Language::AsciiDoc)) == Language::AsciiDoc);
        },
        Language::Astro => {
            reveal_strlit("Astro");
            assert(language_named(language_name(Language::Astro)) == Language::Astro);
        },
        Language::Bash => {
            reveal_strlit("Bash");
            assert(language_named(language_name(Language::Bash)) == Language::Bash);
        },
        Language::Biome => {
            reveal_strlit("Astro");
            reveal_strlit("Biome");
            assert("Biome"@[0] != "Astro"@[0]);
            assert(language_named(language_name(Language::Biome)) == Language::Biome);
        },
        Language::C => {
            reveal_strlit("C");
            assert(language_named(language_name(Language::C)) == Language::C);
        },
        Language::CSharp => {
            reveal_strlit("C#");
            assert(language_named(language_name(Language::CSharp)) == Language::CSharp);
        },
        _ => {},
    }
}

proof fn lemma_names_part_1(l: Language)
    requires
        l == Language::CPlusPlus || l == Language::Clojure || l == Language::CSS || l == Language::CSV || l == Language::Crystal || l == Language::D,
    ensures
        language_named(language_name(l)) == l,
{
    match l {
        Language::CPlusPlus => {
            reveal_strlit("C++");
            assert(language_named(language_name(Language::CPlusPlus)) == Language::CPlusPlus);
        },
        Language::Clojure => {
            reveal_strlit("Clojure");
            assert(language_named(language_name(Language::Clojure)) == Language::Clojure);
        },
        Language::CSS => {
            reveal_strlit("C++");
            reveal_strlit("CSS");
            assert("CSS"@[1] != "C++"@[1]);
            assert(language_named(language_name(Language::CSS)) == Language::CSS);
        },
        Language::CSV => {
            reveal_strlit("C++");
            reveal_strlit("CSS");
            reveal_strlit("CSV");
            assert("CSV"@[1] != "C++"@[1]);
            assert("CSV"@[2] != "CSS"@[2]);
            assert(language_named(language_name(Language::CSV)) == Language::CSV);
        },
        Language::Crystal => {
            reveal_strlit("Clojure");
            reveal_strlit("Crystal");
            assert("Crystal"@[1] != "Clojure"@[1]);
            assert(language_named(language_name(Language::Crystal)) == Language::Crystal);
        },
        Language::D => {
            reveal_strlit("C");
            reveal_strlit("D");
            assert("D"@[0] != "C"@[0]);
            assert(language_named(language_name(Language::D)) == Language::D);
        },
        _ => {},
    }
}

proof fn lemma_names_part_2(l: Language)
    requires
        l == Language::Dart || l == Language::Deno || l == Language::Docker || l == Language::Elixir || l == Language::Elm || l == Language::Emmet,
    ensures
        language_named(language_name(l)) == l,
{
    match l {
        Language::Dart => {
            reveal_strlit("Bash");
            reveal_strlit("Dart");
            assert("Dart"@[0] != "Bash"@[0]);
            assert(language_named(language_name(Language::Dart)) == Language::Dart);
        },
        Language::Deno => {
            reveal_strlit("Bash");
            reveal_strlit("Dart");
            reveal_strlit("Deno");
            assert("Deno"@[0] != "Bash"@[0]);
            assert("Deno"@[1] != "Dart"@[1]);
            assert(language_named(language_name(Language::Deno)) == Language::Deno);
        },
        Language::Docker => {
            reveal_strlit("Docker");
            assert(language_named(language_name(Language::Docker)) == Language::Docker);
        },
        Language::Elixir => {
            reveal_strlit("Docker");
            reveal_strlit("Elixir");
            assert("Elixir"@[0] != "Docker"@[0]);
            assert(language_named(language_name(Language::Elixir)) == Language::Elixir);
        },
        Language::Elm => {
            reveal_strlit("C++");
            reveal_strlit("CSS");
            reveal_strlit("CSV");
            reveal_strlit("Elm");
            assert("Elm"@[0] != "C++"@[0]);
            assert("Elm"@[0] != "CSS"@[0]);
            assert("Elm"@[0] != "CSV"@[0]);
            assert(language_named(language_name(Language::Elm)) == Language::Elm);
        },
        Language::Emmet => {
            reveal_strlit("Astro");
            reveal_strlit("Biome");
            reveal_strlit("Emmet");
            assert("Emmet"@[0] != "Astro"@[0]);
            assert("Emmet"@[0] != "Biome"@[0]);
            assert(language_named(language_name(Language::Emmet)) == Language::Emmet);
        },
        _ => {},
    }
}

proof fn lemma_names_part_3(l: Language)
    requires
        l == Language::Erlang || l == Language::Fish || l == Language::FSharp || l == Language::GDScript || l == Language::GitCommit || l == Language::Gleam,
    ensures
        language_named(language_name(l)) == l,
{
    match l {
        Language::Erlang => {
            reveal_strlit("Docker");
            reveal_strlit("Elixir");
            reveal_strlit("Erlang");
            assert("Erlang"@[0] != "Docker"@[0]);
            assert("Erlang"@[1] != "Elixir"@[1]);
            assert(language_named(language_name(Language::Erlang)) == Language::Erlang);
        },
        Language::Fish => {
            reveal_strlit("Bash");
            reveal_strlit("Dart");
            reveal_strlit("Deno");
            reveal_strlit("Fish");
            assert("Fish"@[0] != "Bash"@[0]);
            assert("Fish"@[0] != "Dart"@[0]);
            assert("Fish"@[0] != "Deno"@[0]);
            assert(language_named(language_name(Language::Fish)) == Language::Fish);
        },
        Language::FSharp => {
            reveal_strlit("Docker");
            reveal_strlit("Elixir");
            reveal_strlit("Erlang");
            reveal_strlit("FSharp");
            assert("FSharp"@[0] != "Docker"@[0]);
            assert("FSharp"@[0] != "Elixir"@[0]);
            assert("FSharp"@[0] != "Erlang"@[0]);
            assert(language_named(language_name(Language::FSharp)) == Language::FSharp);
        },
        Language::GDScript => {
            reveal_strlit("AsciiDoc");
            reveal_strlit("GDScript");
            assert("GDScript"@[0] != "AsciiDoc"@[0]);
            assert(language_named(language_name(Language::GDScript)) == Language::GDScript);
        },
        Language::GitCommit => {
            reveal_strlit("Git Commit");
            assert(language_named(language_name(Language::GitCommit)) == Language::GitCommit);
        },
        Language::Gleam => {
            reveal_strlit("Astro");
            reveal_strlit("Biome");
            reveal_strlit("Emmet");
            reveal_strlit("Gleam");
            assert("Gleam"@[0] != "Astro"@[0]);
            assert("Gleam"@[0] != "Biome"@[0]);
            assert("Gleam"@[0] != "Emmet"@[0]);
            assert(language_named(language_name(Language::Gleam)) == Language::Gleam);
        },
        _ => {},
    }
}

proof fn lemma_names_part_4(l: Language)
    requires
        l == Language::GLSL || l == Language::Go || l == Language::GraphQL || l == Language::Groovy || l == Language::Haskell || l == Language::HEEX,
    ensures
        language_named(language_name(l)) == l,
{
    match l {
        Language::GLSL => {
            reveal_strlit("Bash");
            reveal_strlit("Dart");
            reveal_strlit("Deno");
            reveal_strlit("Fish");
            reveal_strlit("GLSL");
            assert("GLSL"@[0] != "Bash"@[0]);
            assert("GLSL"@[0] != "Dart"@[0]);
            assert("GLSL"@[0] != "Deno"@[0]);
            assert("GLSL"@[0] != "Fish"@[0]);
            assert(language_named(language_name(Language::GLSL)) == Language::GLSL);
        },
        Language::Go => {
            reveal_strlit("C#");
            reveal_strlit("Go");
            assert("Go"@[0] != "C#"@[0]);
            assert(language_named(language_name(Language::Go)) == Language::Go);
        },
        Language::GraphQL => {
            reveal_strlit("Clojure");
            reveal_strlit("Crystal");
            reveal_strlit("GraphQL");
            assert("GraphQL"@[0] != "Clojure"@[0]);
            assert("GraphQL"@[0] != "Crystal"@[0]);
            assert(language_named(language_name(Language::GraphQL)) == Language::GraphQL);
        },
        Language::Groovy => {
            reveal_strlit("Docker");
            reveal_strlit("Elixir");
            reveal_strlit("Erlang");
            reveal_strlit("FSharp");
            reveal_strlit("Groovy");
            assert("Groovy"@[0] != "Docker"@[0]);
            assert("Groovy"@[0] != "Elixir"@[0]);
            assert("Groovy"@[0] != "Erlang"@[0]);
            assert("Groovy"@[0] != "FSharp"@[0]);
            assert(language_named(language_name(Language::Groovy)) == Language::Groovy);
        },
        Language::Haskell => {
            reveal_strlit("Clojure");
            reveal_strlit("Crystal");
            reveal_strlit("GraphQL");
            reveal_strlit("Haskell");
            assert("Haskell"@[0] != "Clojure"@[0]);
            assert("Haskell"@[0] != "Crystal"@[0]);
            assert("Haskell"@[0] != "GraphQL"@[0]);
            assert(language_named(language_name(Language::Haskell)) == Language::Haskell);
        },
        Language::HEEX => {
            reveal_strlit("Bash");
            reveal_strlit("Dart");
            reveal_strlit("Deno");
            reveal_strlit("Fish");
            reveal_strlit("GLSL");
            reveal_strlit("HEEX");
            assert("HEEX"@[0] != "Bash"@[0]);
            assert("HEEX"@[0] != "Dart"@[0]);
            assert("HEEX"@[0] != "Deno"@[0]);
            assert("HEEX"@[0] != "Fish"@[0]);
            assert("HEEX"@[0] != "GLSL"@[0]);
            assert(language_named(language_name(Language::HEEX)) == Language::HEEX);
        },
        _ => {},
    }
}

proof fn lemma_names_part_5(l: Language)
    requires
        l == Language::HTML || l == Language::Hy || l == Language::Idris || l == Language::Java || l == Language::JavaScript || l == Language::JSON,
    ensures
        language_named(language_name(l)) == l,
{
    match l {
        Language::HTML => {
            reveal_strlit("Bash");
            reveal_strlit("Dart");
            reveal_strlit("Deno");
            reveal_strlit("Fish");
            reveal_strlit("GLSL");
            reveal_strlit("HEEX");
            reveal_strlit("HTML");
            assert("HTML"@[0] != "Bash"@[0]);
            assert("HTML"@[0] != "Dart"@[0]);
            assert("HTML"@[0] != "Deno"@[0]);
            assert("HTML"@[0] != "Fish"@[0]);
            assert("HTML"@[0] != "GLSL"@[0]);
            assert("HTML"@[1] != "HEEX"@[1]);
            assert(language_named(language_name(Language::HTML)) == Language::HTML);
        },
        Language::Hy => {
            reveal_strlit("C#");
            reveal_strlit("Go");
            reveal_strlit("Hy");
            assert("Hy"@[0] != "C#"@[0]);
            assert("Hy"@[0] != "Go"@[0]);
            assert(language_named(language_name(Language::Hy)) == Language::Hy);
        },
        Language::Idris => {
            reveal_strlit("Astro");
            reveal_strlit("Biome");
            reveal_strlit("Emmet");
            reveal_strlit("Gleam");
            reveal_strlit("Idris");
            assert("Idris"@[0] != "Astro"@[0]);
            assert("Idris"@[0] != "Biome"@[0]);
            assert("Idris"@[0] != "Emmet"@[0]);
            assert("Idris"@[0] != "Gleam"@[0]);
            assert(language_named(language_name(Language::Idris)) == Language::Idris);
        },
        Language::Java => {
            reveal_strlit("Bash");
            reveal_strlit("Dart");
            reveal_strlit("Deno");
            reveal_strlit("Fish");
            reveal_strlit("GLSL");
            reveal_strlit("HEEX");
            reveal_strlit("HTML");
            reveal_strlit("Java");
            assert("Java"@[0] != "Bash"@[0]);
            assert("Java"@[0] != "Dart"@[0]);
            assert("Java"@[0] != "Deno"@[0]);
            assert("Java"@[0] != "Fish"@[0]);
            assert("Java"@[0] != "GLSL"@[0]);
            assert("Java"@[0] != "HEEX"@[0]);
            assert("Java"@[0] != "HTML"@[0]);
            assert(language_named(language_name(Language::Java)) == Language::Java);
        },
        Language::JavaScript => {
            reveal_strlit("Git Commit");
            reveal_strlit("JavaScript");
            assert("JavaScript"@[0] != "Git Commit"@[0]);
            assert(language_named(language_name(Language::JavaScript)) == Language::JavaScript);
        },
        Language::JSON => {
            reveal_strlit("Bash");
            reveal_strlit("Dart");
            reveal_strlit("Deno");
            reveal_strlit("Fish");
            reveal_strlit("GLSL");
            reveal_strlit("HEEX");
            reveal_strlit("HTML");
            reveal_strlit("Java");
            reveal_strlit("JSON");
            assert("JSON"@[0] != "Bash"@[0]);
            assert("JSON"@[0] != "Dart"@[0]);
            assert("JSON"@[0] != "Deno"@[0]);
            assert("JSON"@[0] != "Fish"@[0]);
            assert("JSON"@[0] != "GLSL"@[0]);
            assert("JSON"@[0] != "HEEX"@[0]);
            assert("JSON"@[0] != "HTML"@[0]);
            assert("JSON"@[1] != "Java"@[1]);
            assert(language_named(language_name(Language::JSON)) == Language::JSON);
        },
        _ => {},
    }
}

proof fn lemma_names_part_6(l: Language)
    requires
        l == Language::JSONC || l == Language::Julia || l == Language::Kotlin || l == Language::LaTeX || l == Language::Lua || l == Language::Luau,
    ensures
        language_named(language_name(l)) == l,
{
    match l {
        Language::JSONC => {
            reveal_strlit("Astro");
            reveal_strlit("Biome");
            reveal_strlit("Emmet");
            reveal_strlit("Gleam");
            reveal_strlit("Idris");
            reveal_strlit("JSONC");
            assert("JSONC"@[0] != "Astro"@[0]);
            assert("JSONC"@[0] != "Biome"@[0]);
            assert("JSONC"@[0] != "Emmet"@[0]);
            assert("JSONC"@[0] != "Gleam"@[0]);
            assert("JSONC"@[0] != "Idris"@[0]);
            assert(language_named(language_name(Language::JSONC)) == Language::JSONC);
        },
        Language::Julia => {
            reveal_strlit("Astro");
            reveal_strlit("Biome");
            reveal_strlit("Emmet");
            reveal_strlit("Gleam");
            reveal_strlit("Idris");
            reveal_strlit("JSONC");
            reveal_strlit("Julia");
            assert("Julia"@[0] != "Astro"@[0]);
            assert("Julia"@[0] != "Biome"@[0]);
            assert("Julia"@[0] != "Emmet"@[0]);
            assert("Julia"@[0] != "Gleam"@[0]);
            assert("Julia"@[0] != "Idris"@[0]);
            assert("Julia"@[1] != "JSONC"@[1]);
            assert(language_named(language_name(Language::Julia)) == Language::Julia);
        },
        Language::Kotlin => {
            reveal_strlit("Docker");
            reveal_strlit("Elixir");
            reveal_strlit("Erlang");
            reveal_strlit("FSharp");
            reveal_strlit("Groovy");
            reveal_strlit("Kotlin");
            assert("Kotlin"@[0] != "Docker"@[0]);
            assert("Kotlin"@[0] != "Elixir"@[0]);
            assert("Kotlin"@[0] != "Erlang"@[0]);
            assert("Kotlin"@[0] != "FSharp"@[0]);
            assert("Kotlin"@[0] != "Groovy"@[0]);
            assert(language_named(language_name(Language::Kotlin)) == Language::Kotlin);
        },
        Language::LaTeX => {
            reveal_strlit("Astro");
            reveal_strlit("Biome");
            reveal_strlit("Emmet");
            reveal_strlit("Gleam");
            reveal_strlit("Idris");
            reveal_strlit("JSONC");
            reveal_strlit("Julia");
            reveal_strlit("LaTeX");
            assert("LaTeX"@[0] != "Astro"@[0]);
            assert("LaTeX"@[0] != "Biome"@[0]);
            assert("LaTeX"@[0] != "Emmet"@[0]);
            assert("LaTeX"@[0] != "Gleam"@[0]);
            assert("LaTeX"@[0] != "Idris"@[0]);
            assert("LaTeX"@[0] != "JSONC"@[0]);
            assert("LaTeX"@[0] != "Julia"@[0]);
            assert(language_named(language_name(Language::LaTeX)) == Language::LaTeX);
        },
        Language::Lua => {
            reveal_strlit("C++");
            reveal_strlit("CSS");
            reveal_strlit("CSV");
            reveal_strlit("Elm");
            reveal_strlit("Lua");
            assert("Lua"@[0] != "C++"@[0]);
            assert("Lua"@[0] != "CSS"@[0]);
            assert("Lua"@[0] != "CSV"@[0]);
            assert("Lua"@[0] != "Elm"@[0]);
            assert(language_named(language_name(Language::Lua)) == Language::Lua);
        },
        Language::Luau => {
            reveal_strlit("Bash");
            reveal_strlit("Dart");
            reveal_strlit("Deno");
            reveal_strlit("Fish");
            reveal_strlit("GLSL");
            reveal_strlit("HEEX");
            reveal_strlit("HTML");
            reveal_strlit("Java");
            reveal_strlit("JSON");
            reveal_strlit("Luau");
            assert("Luau"@[0] != "Bash"@[0]);
            assert("Luau"@[0] != "Dart"@[0]);
            assert("Luau"@[0] != "Deno"@[0]);
            assert("Luau"@[0] != "Fish"@[0]);
            assert("Luau"@[0] != "GLSL"@[0]);
            assert("Luau"@[0] != "HEEX"@[0]);
            assert("Luau"@[0] != "HTML"@[0]);
            assert("Luau"@[0] != "Java"@[0]);
            assert("Luau"@[0] != "JSON"@[0]);
            assert(language_named(language_name(Language::Luau)) == Language::Luau);
        },
        _ => {},
    }
}

proof fn lemma_names_part_7(l: Language)
    requires
        l == Language::Makefile || l == Language::Markdown || l == Language::Nim || l == Language::Nix || l == Language::OCaml || l == Language::PHP,
    ensures
        language_named(language_name(l)) == l,
{
    match l {
        Language::Makefile => {
            reveal_strlit("AsciiDoc");
            reveal_strlit("GDScript");
            reveal_strlit("Makefile");
            assert("Makefile"@[0] != "AsciiDoc"@[0]);
            assert("Makefile"@[0] != "GDScript"@[0]);
            assert(language_named(language_name(Language::Makefile)) == Language::Makefile);
        },
        Language::Markdown => {
            reveal_strlit("AsciiDoc");
            reveal_strlit("GDScript");
            reveal_strlit("Makefile");
            reveal_strlit("Markdown");
            assert("Markdown"@[0] != "AsciiDoc"@[0]);
            assert("Markdown"@[0] != "GDScript"@[0]);
            assert("Markdown"@[2] != "Makefile"@[2]);
            assert(language_named(language_name(Language::Markdown)) == Language::Markdown);
        },
        Language::Nim => {
            reveal_strlit("C++");
            reveal_strlit("CSS");
            reveal_strlit("CSV");
            reveal_strlit("Elm");
            reveal_strlit("Lua");
            reveal_strlit("Nim");
            assert("Nim"@[0] != "C++"@[0]);
            assert("Nim"@[0] != "CSS"@[0]);
            assert("Nim"@[0] != "CSV"@[0]);
            assert("Nim"@[0] != "Elm"@[0]);
            assert("Nim"@[0] != "Lua"@[0]);
            assert(language_named(language_name(Language::Nim)) == Language::Nim);
        },
        Language::Nix => {
            reveal_strlit("C++");
            reveal_strlit("CSS");
            reveal_strlit("CSV");
            reveal_strlit("Elm");
            reveal_strlit("Lua");
            reveal_strlit("Nim");
            reveal_strlit("Nix");
            assert("Nix"@[0] != "C++"@[0]);
            assert("Nix"@[0] != "CSS"@[0]);
            assert("Nix"@[0] != "CSV"@[0]);
            assert("Nix"@[0] != "Elm"@[0]);
            assert("Nix"@[0] != "Lua"@[0]);
            assert("Nix"@[2] != "Nim"@[2]);
            assert(language_named(language_name(Language::Nix)) == Language::Nix);
        },
        Language::OCaml => {
            reveal_strlit("Astro");
            reveal_strlit("Biome");
            reveal_strlit("Emmet");
            reveal_strlit("Gleam");
            reveal_strlit("Idris");
            reveal_strlit("JSONC");
            reveal_strlit("Julia");
            reveal_strlit("LaTeX");
            reveal_strlit("OCaml");
            assert("OCaml"@[0] != "Astro"@[0]);
            assert("OCaml"@[0] != "Biome"@[0]);
            assert("OCaml"@[0] != "Emmet"@[0]);
            assert("OCaml"@[0] != "Gleam"@[0]);
            assert("OCaml"@[0] != "Idris"@[0]);
            assert("OCaml"@[0] != "JSONC"@[0]);
            assert("OCaml"@[0] != "Julia"@[0]);
            assert("OCaml"@[0] != "LaTeX"@[0]);
            assert(language_named(language_name(Language::OCaml)) == Language::OCaml);
        },
        Language::PHP => {
            reveal_strlit("C++");
            reveal_strlit("CSS");
            reveal_strlit("CSV");
            reveal_strlit("Elm");
            reveal_strlit("Lua");
            reveal_strlit("Nim");
            reveal_strlit("Nix");
            reveal_strlit("PHP");
            assert("PHP"@[0] != "C++"@[0]);
            assert("PHP"@[0] != "CSS"@[0]);
            assert("PHP"@[0] != "CSV"@[0]);
            assert("PHP"@[0] != "Elm"@[0]);
            assert("PHP"@[0] != "Lua"@[0]);
            assert("PHP"@[0] != "Nim"@[0]);
            assert("PHP"@[0] != "Nix"@[0]);
            assert(language_named(language_name(Language::PHP)) == Language::PHP);
        },
        _ => {},
    }
}

proof fn lemma_names_part_8(l: Language)
    requires
        l == Language::PlainText || l == Language::Prisma || l == Language::Proto || l == Language::PureScript || l == Language::Python || l == Language::R,
    ensures
        language_named(language_name(l)) == l,
{
    match l {
        Language::PlainText => {
            reveal_strlit("Git Commit");
            reveal_strlit("JavaScript");
            reveal_strlit("Plain Text");
            assert("Plain Text"@[0] != "Git Commit"@[0]);
            assert("Plain Text"@[0] != "JavaScript"@[0]);
            assert(language_named(language_name(Language::PlainText)) == Language::PlainText);
        },
        Language::Prisma => {
            reveal_strlit("Docker");
            reveal_strlit("Elixir");
            reveal_strlit("Erlang");
            reveal_strlit("FSharp");
            reveal_strlit("Groovy");
            reveal_strlit("Kotlin");
            reveal_strlit("Prisma");
            assert("Prisma"@[0] != "Docker"@[0]);
            assert("Prisma"@[0] != "Elixir"@[0]);
            assert("Prisma"@[0] != "Erlang"@[0]);
            assert("Prisma"@[0] != "FSharp"@[0]);
            assert("Prisma"@[0] != "Groovy"@[0]);
            assert("Prisma"@[0] != "Kotlin"@[0]);
            assert(language_named(language_name(Language::Prisma)) == Language::Prisma);
        },
        Language::Proto => {
            reveal_strlit("Astro");
            reveal_strlit("Biome");
            reveal_strlit("Emmet");
            reveal_strlit("Gleam");
            reveal_strlit("Idris");
            reveal_strlit("JSONC");
            reveal_strlit("Julia");
            reveal_strlit("LaTeX");
            reveal_strlit("OCaml");
            reveal_strlit("Proto");
            assert("Proto"@[0] != "Astro"@[0]);
            assert("Proto"@[0] != "Biome"@[0]);
            assert("Proto"@[0] != "Emmet"@[0]);
            assert("Proto"@[0] != "Gleam"@[0]);
            assert("Proto"@[0] != "Idris"@[0]);
            assert("Proto"@[0] != "JSONC"@[0]);
            assert("Proto"@[0] != "Julia"@[0]);
            assert("Proto"@[0] != "LaTeX"@[0]);
            assert("Proto"@[0] != "OCaml"@[0]);
            assert(language_named(language_name(Language::Proto)) == Language::Proto);
        },
        Language::PureScript => {
            reveal_strlit("Git Commit");
            reveal_strlit("JavaScript");
            reveal_strlit("Plain Text");
            reveal_strlit("PureScript");
            assert("PureScript"@[0] != "Git Commit"@[0]);
            assert("PureScript"@[0] != "JavaScript"@[0]);
            assert("PureScript"@[1] != "Plain Text"@[1]);
            assert(language_named(language_name(Language::PureScript)) == Language::PureScript);
        },
        Language::Python => {
            reveal_strlit("Docker");
            reveal_strlit("Elixir");
            reveal_strlit("Erlang");
            reveal_strlit("FSharp");
            reveal_strlit("Groovy");
            reveal_strlit("Kotlin");
            reveal_strlit("Prisma");
            reveal_strlit("Python");
            assert("Python"@[0] != "Docker"@[0]);
            assert("Python"@[0] != "Elixir"@[0]);
            assert("Python"@[0] != "Erlang"@[0]);
            assert("Python"@[0] != "FSharp"@[0]);
            assert("Python"@[0] != "Groovy"@[0]);
            assert("Python"@[0] != "Kotlin"@[0]);
            assert("Python"@[1] != "Prisma"@[1]);
            assert(language_named(language_name(Language::Python)) == Language::Python);
        },
        Language::R => {
            reveal_strlit("C");
            reveal_strlit("D");
            reveal_strlit("R");
            assert("R"@[0] != "C"@[0]);
            assert("R"@[0] != "D"@[0]);
            assert(language_named(language_name(Language::R)) == Language::R);
        },
        _ => {},
    }
}

proof fn lemma_names_part_9(l: Language)
    requires
        l == Language::Racket || l == Language::Rego || l == Language::reST || l == Language::ReStructuredText || l == Language::Roc || l == Language::Ruby,
    ensures
        language_named(language_name(l)) == l,
{
    match l {
        Language::Racket => {
            reveal_strlit("Docker");
            reveal_strlit("Elixir");
            reveal_strlit("Erlang");
            reveal_strlit("FSharp");
            reveal_strlit("Groovy");
            reveal_strlit("Kotlin");
            reveal_strlit("Prisma");
            reveal_strlit("Python");
            reveal_strlit("Racket");
            assert("Racket"@[0] != "Docker"@[0]);
            assert("Racket"@[0] != "Elixir"@[0]);
            assert("Racket"@[0] != "Erlang"@[0]);
            assert("Racket"@[0] != "FSharp"@[0]);
            assert("Racket"@[0] != "Groovy"@[0]);
            assert("Racket"@[0] != "Kotlin"@[0]);
            assert("Racket"@[0] != "Prisma"@[0]);
            assert("Racket"@[0] != "Python"@[0]);
            assert(language_named(language_name(Language::Racket)) == Language::Racket);
        },
        Language::Rego => {
            reveal_strlit("Bash");
            reveal_strlit("Dart");
            reveal_strlit("Deno");
            reveal_strlit("Fish");
            reveal_strlit("GLSL");
            reveal_strlit("HEEX");
            reveal_strlit("HTML");
            reveal_strlit("Java");
            reveal_strlit("JSON");
            reveal_strlit("Luau");
            reveal_strlit("Rego");
            assert("Rego"@[0] != "Bash"@[0]);
            assert("Rego"@[0] != "Dart"@[0]);
            assert("Rego"@[0] != "Deno"@[0]);
            assert("Rego"@[0] != "Fish"@[0]);
            assert("Rego"@[0] != "GLSL"@[0]);
            assert("Rego"@[0] != "HEEX"@[0]);
            assert("Rego"@[0] != "HTML"@[0]);
            assert("Rego"@[0] != "Java"@[0]);
            assert("Rego"@[0] != "JSON"@[0]);
            assert("Rego"@[0] != "Luau"@[0]);
            assert(language_named(language_name(Language::Rego)) == Language::Rego);
        },
        Language::reST => {
            reveal_strlit("Bash");
            reveal_strlit("Dart");
            reveal_strlit("Deno");
            reveal_strlit("Fish");
            reveal_strlit("GLSL");
            reveal_strlit("HEEX");
            reveal_strlit("HTML");
            reveal_strlit("Java");
            reveal_strlit("JSON");
            reveal_strlit("Luau");
            reveal_strlit("Rego");
            reveal_strlit("reST");
            assert("reST"@[0] != "Bash"@[0]);
            assert("reST"@[0] != "Dart"@[0]);
            assert("reST"@[0] != "Deno"@[0]);
            assert("reST"@[0] != "Fish"@[0]);
            assert("reST"@[0] != "GLSL"@[0]);
            assert("reST"@[0] != "HEEX"@[0]);
            assert("reST"@[0] != "HTML"@[0]);
            assert("reST"@[0] != "Java"@[0]);
            assert("reST"@[0] != "JSON"@[0]);
            assert("reST"@[0] != "Luau"@[0]);
            assert("reST"@[0] != "Rego"@[0]);
            assert(language_named(language_name(Language::reST)) == Language::reST);
        },
        Language::ReStructuredText => {
            reveal_strlit("ReStructuredText");
            assert(language_named(language_name(Language::ReStructuredText)) == Language::ReStructuredText);
        },
        Language::Roc => {
            reveal_strlit("C++");
            reveal_strlit("CSS");
            reveal_strlit("CSV");
            reveal_strlit("Elm");
            reveal_strlit("Lua");
            reveal_strlit("Nim");
            reveal_strlit("Nix");
            reveal_strlit("PHP");
            reveal_strlit("Roc");
            assert("Roc"@[0] != "C++"@[0]);
            assert("Roc"@[0] != "CSS"@[0]);
            assert("Roc"@[0] != "CSV"@[0]);
            assert("Roc"@[0] != "Elm"@[0]);
            assert("Roc"@[0] != "Lua"@[0]);
            assert("Roc"@[0] != "Nim"@[0]);
            assert("Roc"@[0] != "Nix"@[0]);
            assert("Roc"@[0] != "PHP"@[0]);
            assert(language_named(language_name(Language::Roc)) == Language::Roc);
        },
        Language::Ruby => {
            reveal_strlit("Bash");
            reveal_strlit("Dart");
            reveal_strlit("Deno");
            reveal_strlit("Fish");
            reveal_strlit("GLSL");
            reveal_strlit("HEEX");
            reveal_strlit("HTML");
            reveal_strlit("Java");
            reveal_strlit("JSON");
            reveal_strlit("Luau");
            reveal_strlit("Rego");
            reveal_strlit("reST");
            reveal_strlit("Ruby");
            assert("Ruby"@[0] != "Bash"@[0]);
            assert("Ruby"@[0] != "Dart"@[0]);
            assert("Ruby"@[0] != "Deno"@[0]);
            assert("Ruby"@[0] != "Fish"@[0]);
            assert("Ruby"@[0] != "GLSL"@[0]);
            assert("Ruby"@[0] != "HEEX"@[0]);
            assert("Ruby"@[0] != "HTML"@[0]);
            assert("Ruby"@[0] != "Java"@[0]);
            assert("Ruby"@[0] != "JSON"@[0]);
            assert("Ruby"@[0] != "Luau"@[0]);
            assert("Ruby"@[1] != "Rego"@[1]);
            assert("Ruby"@[0] != "reST"@[0]);
            assert(language_named(language_name(Language::Ruby)) == Language::Ruby);
        },
        _ => {},
    }
}

proof fn lemma_names_part_10(l: Language)
    requires
        l == Language::Rust || l == Language::Scala || l == Language::Scheme || l == Language::SCSS || l == Language::ShellScript || l == Language::SQL,
    ensures
        language_named(language_name(l)) == l,
{
    match l {
        Language::Rust => {
            reveal_strlit("Bash");
            reveal_strlit("Dart");
            reveal_strlit("Deno");
            reveal_strlit("Fish");
            reveal_strlit("GLSL");
            reveal_strlit("HEEX");
            reveal_strlit("HTML");
            reveal_strlit("Java");
            reveal_strlit("JSON");
            reveal_strlit("Luau");
            reveal_strlit("Rego");
            reveal_strlit("reST");
            reveal_strlit("Ruby");
            reveal_strlit("Rust");
            assert("Rust"@[0] != "Bash"@[0]);
            assert("Rust"@[0] != "Dart"@[0]);
            assert("Rust"@[0] != "Deno"@[0]);
            assert("Rust"@[0] != "Fish"@[0]);
            assert("Rust"@[0] != "GLSL"@[0]);
            assert("Rust"@[0] != "HEEX"@[0]);
            assert("Rust"@[0] != "HTML"@[0]);
            assert("Rust"@[0] != "Java"@[0]);
            assert("Rust"@[0] != "JSON"@[0]);
            assert("Rust"@[0] != "Luau"@[0]);
            assert("Rust"@[1] != "Rego"@[1]);
            assert("Rust"@[0] != "reST"@[0]);
            assert("Rust"@[2] != "Ruby"@[2]);
            assert(language_named(language_name(Language::Rust)) == Language::Rust);
        },
        Language::Scala => {
            reveal_strlit("Astro");
            reveal_strlit("Biome");
            reveal_strlit("Emmet");
            reveal_strlit("Gleam");
            reveal_strlit("Idris");
            reveal_strlit("JSONC");
            reveal_strlit("Julia");
            reveal_strlit("LaTeX");
            reveal_strlit("OCaml");
            reveal_strlit("Proto");
            reveal_strlit("Scala");
            assert("Scala"@[0] != "Astro"@[0]);
            assert("Scala"@[0] != "Biome"@[0]);
            assert("Scala"@[0] != "Emmet"@[0]);
            assert("Scala"@[0] != "Gleam"@[0]);
            assert("Scala"@[0] != "Idris"@[0]);
            assert("Scala"@[0] != "JSONC"@[0]);
            assert("Scala"@[0] != "Julia"@[0]);
            assert("Scala"@[0] != "LaTeX"@[0]);
            assert("Scala"@[0] != "OCaml"@[0]);
            assert("Scala"@[0] != "Proto"@[0]);
            assert(language_named(language_name(Language::Scala)) == Language::Scala);
        },
        Language::Scheme => {
            reveal_strlit("Docker");
            reveal_strlit("Elixir");
            reveal_strlit("Erlang");
            reveal_strlit("FSharp");
            reveal_strlit("Groovy");
            reveal_strlit("Kotlin");
            reveal_strlit("Prisma");
            reveal_strlit("Python");
            reveal_strlit("Racket");
            reveal_strlit("Scheme");
            assert("Scheme"@[0] != "Docker"@[0]);
            assert("Scheme"@[0] != "Elixir"@[0]);
            assert("Scheme"@[0] != "Erlang"@[0]);
            assert("Scheme"@[0] != "FSharp"@[0]);
            assert("Scheme"@[0] != "Groovy"@[0]);
            assert("Scheme"@[0] != "Kotlin"@[0]);
            assert("Scheme"@[0] != "Prisma"@[0]);
            assert("Scheme"@[0] != "Python"@[0]);
            assert("Scheme"@[0] != "Racket"@[0]);
            assert(language_named(language_name(Language::Scheme)) == Language::Scheme);
        },
        Language::SCSS => {
            reveal_strlit("Bash");
            reveal_strlit("Dart");
            reveal_strlit("Deno");
            reveal_strlit("Fish");
            reveal_strlit("GLSL");
            reveal_strlit("HEEX");
            reveal_strlit("HTML");
            reveal_strlit("Java");
            reveal_strlit("JSON");
            reveal_strlit("Luau");
            reveal_strlit("Rego");
            reveal_strlit("reST");
            reveal_strlit("Ruby");
            reveal_strlit("Rust");
            reveal_strlit("SCSS");
            assert("SCSS"@[0] != "Bash"@[0]);
            assert("SCSS"@[0] != "Dart"@[0]);
            assert("SCSS"@[0] != "Deno"@[0]);
            assert("SCSS"@[0] != "Fish"@[0]);
            assert("SCSS"@[0] != "GLSL"@[0]);
            assert("SCSS"@[0] != "HEEX"@[0]);
            assert("SCSS"@[0] != "HTML"@[0]);
            assert("SCSS"@[0] != "Java"@[0]);
            assert("SCSS"@[0] != "JSON"@[0]);
            assert("SCSS"@[0] != "Luau"@[0]);
            assert("SCSS"@[0] != "Rego"@[0]);
            assert("SCSS"@[0] != "reST"@[0]);
            assert("SCSS"@[0] != "Ruby"@[0]);
            assert("SCSS"@[0] != "Rust"@[0]);
            assert(language_named(language_name(Language::SCSS)) == Language::SCSS);
        },
        Language::ShellScript => {
            reveal_strlit("Shell Script");
            assert(language_named(language_name(Language::ShellScript)) == Language::ShellScript);
        },
        Language::SQL => {
            reveal_strlit("C++");
            reveal_strlit("CSS");
            reveal_strlit("CSV");
            reveal_strlit("Elm");
            reveal_strlit("Lua");
            reveal_strlit("Nim");
            reveal_strlit("Nix");
            reveal_strlit("PHP");
            reveal_strlit("Roc");
            reveal_strlit("SQL");
            assert("SQL"@[0] != "C++"@[0]);
            assert("SQL"@[0] != "CSS"@[0]);
            assert("SQL"@[0] != "CSV"@[0]);
            assert("SQL"@[0] != "Elm"@[0]);
            assert("SQL"@[0] != "Lua"@[0]);
            assert("SQL"@[0] != "Nim"@[0]);
            assert("SQL"@[0] != "Nix"@[0]);
            assert("SQL"@[0] != "PHP"@[0]);
            assert("SQL"@[0] != "Roc"@[0]);
            assert(language_named(language_name(Language::SQL)) == Language::SQL);
        },
        _ => {},
    }
}

proof fn lemma_names_part_11(l: Language)
    requires
        l == Language::Svelte || l == Language::Swift || l == Language::TailwindCSS || l == Language::Terraform || l == Language::TOML || l == Language::TSX,
    ensures
        language_named(language_name(l)) == l,
{
    match l {
        Language::Svelte => {
            reveal_strlit("Docker");
            reveal_strlit("Elixir");
            reveal_strlit("Erlang");
            reveal_strlit("FSharp");
            reveal_strlit("Groovy");
            reveal_strlit("Kotlin");
            reveal_strlit("Prisma");
            reveal_strlit("Python");
            reveal_strlit("Racket");
            reveal_strlit("Scheme");
            reveal_strlit("Svelte");
            assert("Svelte"@[0] != "Docker"@[0]);
            assert("Svelte"@[0] != "Elixir"@[0]);
            assert("Svelte"@[0] != "Erlang"@[0]);
            assert("Svelte"@[0] != "FSharp"@[0]);
            assert("Svelte"@[0] != "Groovy"@[0]);
            assert("Svelte"@[0] != "Kotlin"@[0]);
            assert("Svelte"@[0] != "Prisma"@[0]);
            assert("Svelte"@[0] != "Python"@[0]);
            assert("Svelte"@[0] != "Racket"@[0]);
            assert("Svelte"@[1] != "Scheme"@[1]);
            assert(language_named(language_name(Language::Svelte)) == Language::Svelte);
        },
        Language::Swift => {
            reveal_strlit("Astro");
            reveal_strlit("Biome");
            reveal_strlit("Emmet");
            reveal_strlit("Gleam");
            reveal_strlit("Idris");
            reveal_strlit("JSONC");
            reveal_strlit("Julia");
            reveal_strlit("LaTeX");
            reveal_strlit("OCaml");
            reveal_strlit("Proto");
            reveal_strlit("Scala");
            reveal_strlit("Swift");
            assert("Swift"@[0] != "Astro"@[0]);
            assert("Swift"@[0] != "Biome"@[0]);
            assert("Swift"@[0] != "Emmet"@[0]);
            assert("Swift"@[0] != "Gleam"@[0]);
            assert("Swift"@[0] != "Idris"@[0]);
            assert("Swift"@[0] != "JSONC"@[0]);
            assert("Swift"@[0] != "Julia"@[0]);
            assert("Swift"@[0] != "LaTeX"@[0]);
            assert("Swift"@[0] != "OCaml"@[0]);
            assert("Swift"@[0] != "Proto"@[0]);
            assert("Swift"@[1] != "Scala"@[1]);
            assert(language_named(language_name(Language::Swift)) == Language::Swift);
        },
        Language::TailwindCSS => {
            reveal_strlit("TailwindCSS");
            assert(language_named(language_name(Language::TailwindCSS)) == Language::TailwindCSS);
        },
        Language::Terraform => {
            reveal_strlit("Terraform");
            assert(language_named(language_name(Language::Terraform)) == Language::Terraform);
        },
        Language::TOML => {
            reveal_strlit("Bash");
            reveal_strlit("Dart");
            reveal_strlit("Deno");
            reveal_strlit("Fish");
            reveal_strlit("GLSL");
            reveal_strlit("HEEX");
            reveal_strlit("HTML");
            reveal_strlit("Java");
            reveal_strlit("JSON");
            reveal_strlit("Luau");
            reveal_strlit("Rego");
            reveal_strlit("reST");
            reveal_strlit("Ruby");
            reveal_strlit("Rust");
            reveal_strlit("SCSS");
            reveal_strlit("TOML");
            assert("TOML"@[0] != "Bash"@[0]);
            assert("TOML"@[0] != "Dart"@[0]);
            assert("TOML"@[0] != "Deno"@[0]);
            assert("TOML"@[0] != "Fish"@[0]);
            assert("TOML"@[0] != "GLSL"@[0]);
            assert("TOML"@[0] != "HEEX"@[0]);
            assert("TOML"@[0] != "HTML"@[0]);
            assert("TOML"@[0] != "Java"@[0]);
            assert("TOML"@[0] != "JSON"@[0]);
            assert("TOML"@[0] != "Luau"@[0]);
            assert("TOML"@[0] != "Rego"@[0]);
            assert("TOML"@[0] != "reST"@[0]);
            assert("TOML"@[0] != "Ruby"@[0]);
            assert("TOML"@[0] != "Rust"@[0]);
            assert("TOML"@[0] != "SCSS"@[0]);
            assert(language_named(language_name(Language::TOML)) == Language::TOML);
        },
        Language::TSX => {
            reveal_strlit("C++");
            reveal_strlit("CSS");
            reveal_strlit("CSV");
            reveal_strlit("Elm");
            reveal_strlit("Lua");
            reveal_strlit("Nim");
            reveal_strlit("Nix");
            reveal_strlit("PHP");
            reveal_strlit("Roc");
            reveal_strlit("SQL");
            reveal_strlit("TSX");
            assert("TSX"@[0] != "C++"@[0]);
            assert("TSX"@[0] != "CSS"@[0]);
            assert("TSX"@[0] != "CSV"@[0]);
            assert("TSX"@[0] != "Elm"@[0]);
            assert("TSX"@[0] != "Lua"@[0]);
            assert("TSX"@[0] != "Nim"@[0]);
            assert("TSX"@[0] != "Nix"@[0]);
            assert("TSX"@[0] != "PHP"@[0]);
            assert("TSX"@[0] != "Roc"@[0]);
            assert("TSX"@[0] != "SQL"@[0]);
            assert(language_named(language_name(Language::TSX)) == Language::TSX);
        },
        _ => {},
    }
}

proof fn lemma_names_part_12(l: Language)
    requires
        l == Language::TypeScript || l == Language::Typst || l == Language::Uiua || l == Language::Vue || l == Language::VueJs || l == Language::WIT,
    ensures
        language_named(language_name(l)) == l,
{
    match l {
        Language::TypeScript => {
            reveal_strlit("Git Commit");
            reveal_strlit("JavaScript");
            reveal_strlit("Plain Text");
            reveal_strlit("PureScript");
            reveal_strlit("TypeScript");
            assert("TypeScript"@[0] != "Git Commit"@[0]);
            assert("TypeScript"@[0] != "JavaScript"@[0]);
            assert("TypeScript"@[0] != "Plain Text"@[0]);
            assert("TypeScript"@[0] != "PureScript"@[0]);
            assert(language_named(language_name(Language::TypeScript)) == Language::TypeScript);
        },
        Language::Typst => {
            reveal_strlit("Astro");
            reveal_strlit("Biome");
            reveal_strlit("Emmet");
            reveal_strlit("Gleam");
            reveal_strlit("Idris");
            reveal_strlit("JSONC");
            reveal_strlit("Julia");
            reveal_strlit("LaTeX");
            reveal_strlit("OCaml");
            reveal_strlit("Proto");
            reveal_strlit("Scala");
            reveal_strlit("Swift");
            reveal_strlit("Typst");
            assert("Typst"@[0] != "Astro"@[0]);
            assert("Typst"@[0] != "Biome"@[0]);
            assert("Typst"@[0] != "Emmet"@[0]);
            assert("Typst"@[0] != "Gleam"@[0]);
            assert("Typst"@[0] != "Idris"@[0]);
            assert("Typst"@[0] != "JSONC"@[0]);
            assert("Typst"@[0] != "Julia"@[0]);
            assert("Typst"@[0] != "LaTeX"@[0]);
            assert("Typst"@[0] != "OCaml"@[0]);
            assert("Typst"@[0] != "Proto"@[0]);
            assert("Typst"@[0] != "Scala"@[0]);
            assert("Typst"@[0] != "Swift"@[0]);
            assert(language_named(language_name(Language::Typst)) == Language::Typst);
        },
        Language::Uiua => {
            reveal_strlit("Bash");
            reveal_strlit("Dart");
            reveal_strlit("Deno");
            reveal_strlit("Fish");
            reveal_strlit("GLSL");
            reveal_strlit("HEEX");
            reveal_strlit("HTML");
            reveal_strlit("Java");
            reveal_strlit("JSON");
            reveal_strlit("Luau");
            reveal_strlit("Rego");
            reveal_strlit("reST");
            reveal_strlit("Ruby");
            reveal_strlit("Rust");
            reveal_strlit("SCSS");
            reveal_strlit("TOML");
            reveal_strlit("Uiua");
            assert("Uiua"@[0] != "Bash"@[0]);
            assert("Uiua"@[0] != "Dart"@[0]);
            assert("Uiua"@[0] != "Deno"@[0]);
            assert("Uiua"@[0] != "Fish"@[0]);
            assert("Uiua"@[0] != "GLSL"@[0]);
            assert("Uiua"@[0] != "HEEX"@[0]);
            assert("Uiua"@[0] != "HTML"@[0]);
            assert("Uiua"@[0] != "Java"@[0]);
            assert("Uiua"@[0] != "JSON"@[0]);
            assert("Uiua"@[0] != "Luau"@[0]);
            assert("Uiua"@[0] != "Rego"@[0]);
            assert("Uiua"@[0] != "reST"@[0]);
            assert("Uiua"@[0] != "Ruby"@[0]);
            assert("Uiua"@[0] != "Rust"@[0]);
            assert("Uiua"@[0] != "SCSS"@[0]);
            assert("Uiua"@[0] != "TOML"@[0]);
            assert(language_named(language_name(Language::Uiua)) == Language::Uiua);
        },
        Language::Vue => {
            reveal_strlit("C++");
            reveal_strlit("CSS");
            reveal_strlit("CSV");
            reveal_strlit("Elm");
            reveal_strlit("Lua");
            reveal_strlit("Nim");
            reveal_strlit("Nix");
            reveal_strlit("PHP");
            reveal_strlit("Roc");
            reveal_strlit("SQL");
            reveal_strlit("TSX");
            reveal_strlit("Vue");
            assert("Vue"@[0] != "C++"@[0]);
            assert("Vue"@[0] != "CSS"@[0]);
            assert("Vue"@[0] != "CSV"@[0]);
            assert("Vue"@[0] != "Elm"@[0]);
            assert("Vue"@[0] != "Lua"@[0]);
            assert("Vue"@[0] != "Nim"@[0]);
            assert("Vue"@[0] != "Nix"@[0]);
            assert("Vue"@[0] != "PHP"@[0]);
            assert("Vue"@[0] != "Roc"@[0]);
            assert("Vue"@[0] != "SQL"@[0]);
            assert("Vue"@[0] != "TSX"@[0]);
            assert(language_named(language_name(Language::Vue)) == Language::Vue);
        },
        Language::VueJs => {
            reveal_strlit("Docker");
            reveal_strlit("Elixir");
            reveal_strlit("Erlang");
            reveal_strlit("FSharp");
            reveal_strlit("Groovy");
            reveal_strlit("Kotlin");
            reveal_strlit("Prisma");
            reveal_strlit("Python");
            reveal_strlit("Racket");
            reveal_strlit("Scheme");
            reveal_strlit("Svelte");
            reveal_strlit("Vue.js");
            assert("Vue.js"@[0] != "Docker"@[0]);
            assert("Vue.js"@[0] != "Elixir"@[0]);
            assert("Vue.js"@[0] != "Erlang"@[0]);
            assert("Vue.js"@[0] != "FSharp"@[0]);
            assert("Vue.js"@[0] != "Groovy"@[0]);
            assert("Vue.js"@[0] != "Kotlin"@[0]);
            assert("Vue.js"@[0] != "Prisma"@[0]);
            assert("Vue.js"@[0] != "Python"@[0]);
            assert("Vue.js"@[0] != "Racket"@[0]);
            assert("Vue.js"@[0] != "Scheme"@[0]);
            assert("Vue.js"@[0] != "Svelte"@[0]);
            assert(language_named(language_name(Language::VueJs)) == Language::VueJs);
        },
        Language::WIT => {
            reveal_strlit("C++");
            reveal_strlit("CSS");
            reveal_strlit("CSV");
            reveal_strlit("Elm");
            reveal_strlit("Lua");
            reveal_strlit("Nim");
            reveal_strlit("Nix");
            reveal_strlit("PHP");
            reveal_strlit("Roc");
            reveal_strlit("SQL");
            reveal_strlit("TSX");
            reveal_strlit("Vue");
            reveal_strlit("WIT");
            assert("WIT"@[0] != "C++"@[0]);
            assert("WIT"@[0] != "CSS"@[0]);
            assert("WIT"@[0] != "CSV"@[0]);
            assert("WIT"@[0] != "Elm"@[0]);
            assert("WIT"@[0] != "Lua"@[0]);
            assert("WIT"@[0] != "Nim"@[0]);
            assert("WIT"@[0] != "Nix"@[0]);
            assert("WIT"@[0] != "PHP"@[0]);
            assert("WIT"@[0] != "Roc"@[0]);
            assert("WIT"@[0] != "SQL"@[0]);
            assert("WIT"@[0] != "TSX"@[0]);
            assert("WIT"@[0] != "Vue"@[0]);
            assert(language_named(language_name(Language::WIT)) == Language::WIT);
        },
        _ => {},
    }
}

proof fn lemma_names_part_13(l: Language)
    requires
        l == Language::XML || l == Language::YAML || l == Language::Yarn || l == Language::Zig || l == Language::Unknown,
    ensures
        language_named(language_name(l)) == l,
{
    match l {
        Language::XML => {
            reveal_strlit("C++");
            reveal_strlit("CSS");
            reveal_strlit("CSV");
            reveal_strlit("Elm");
            reveal_strlit("Lua");
            reveal_strlit("Nim");
            reveal_strlit("Nix");
            reveal_strlit("PHP");
            reveal_strlit("Roc");
            reveal_strlit("SQL");
            reveal_strlit("TSX");
            reveal_strlit("Vue");
            reveal_strlit("WIT");
            reveal_strlit("XML");
            assert("XML"@[0] != "C++"@[0]);
            assert("XML"@[0] != "CSS"@[0]);
            assert("XML"@[0] != "CSV"@[0]);
            assert("XML"@[0] != "Elm"@[0]);
            assert("XML"@[0] != "Lua"@[0]);
            assert("XML"@[0] != "Nim"@[0]);
            assert("XML"@[0] != "Nix"@[0]);
            assert("XML"@[0] != "PHP"@[0]);
            assert("XML"@[0] != "Roc"@[0]);
            assert("XML"@[0] != "SQL"@[0]);
            assert("XML"@[0] != "TSX"@[0]);
            assert("XML"@[0] != "Vue"@[0]);
            assert("XML"@[0] != "WIT"@[0]);
            assert(language_named(language_name(Language::XML)) == Language::XML);
        },
        Language::YAML => {
            reveal_strlit("Bash");
            reveal_strlit("Dart");
            reveal_strlit("Deno");
            reveal_strlit("Fish");
            reveal_strlit("GLSL");
            reveal_strlit("HEEX");
            reveal_strlit("HTML");
            reveal_strlit("Java");
            reveal_strlit("JSON");
            reveal_strlit("Luau");
            reveal_strlit("Rego");
            reveal_strlit("reST");
            reveal_strlit("Ruby");
            reveal_strlit("Rust");
            reveal_strlit("SCSS");
            reveal_strlit("TOML");
            reveal_strlit("Uiua");
            reveal_strlit("YAML");
            assert("YAML"@[0] != "Bash"@[0]);
            assert("YAML"@[0] != "Dart"@[0]);
            assert("YAML"@[0] != "Deno"@[0]);
            assert("YAML"@[0] != "Fish"@[0]);
            assert("YAML"@[0] != "GLSL"@[0]);
            assert("YAML"@[0] != "HEEX"@[0]);
            assert("YAML"@[0] != "HTML"@[0]);
            assert("YAML"@[0] != "Java"@[0]);
            assert("YAML"@[0] != "JSON"@[0]);
            assert("YAML"@[0] != "Luau"@[0]);
            assert("YAML"@[0] != "Rego"@[0]);
            assert("YAML"@[0] != "reST"@[0]);
            assert("YAML"@[0] != "Ruby"@[0]);
            assert("YAML"@[0] != "Rust"@[0]);
            assert("YAML"@[0] != "SCSS"@[0]);
            assert("YAML"@[0] != "TOML"@[0]);
            assert("YAML"@[0] != "Uiua"@[0]);
            assert(language_named(language_name(Language::YAML)) == Language::YAML);
        },
        Language::Yarn => {
            reveal_strlit("Bash");
            reveal_strlit("Dart");
            reveal_strlit("Deno");
            reveal_strlit("Fish");
            reveal_strlit("GLSL");
            reveal_strlit("HEEX");
            reveal_strlit("HTML");
            reveal_strlit("Java");
            reveal_strlit("JSON");
            reveal_strlit("Luau");
            reveal_strlit("Rego");
            reveal_strlit("reST");
            reveal_strlit("Ruby");
            reveal_strlit("Rust");
            reveal_strlit("SCSS");
            reveal_strlit("TOML");
            reveal_strlit("Uiua");
            reveal_strlit("YAML");
            reveal_strlit("Yarn");
            assert("Yarn"@[0] != "Bash"@[0]);
            assert("Yarn"@[0] != "Dart"@[0]);
            assert("Yarn"@[0] != "Deno"@[0]);
            assert("Yarn"@[0] != "Fish"@[0]);
            assert("Yarn"@[0] != "GLSL"@[0]);
            assert("Yarn"@[0] != "HEEX"@[0]);
            assert("Yarn"@[0] != "HTML"@[0]);
            assert("Yarn"@[0] != "Java"@[0]);
            assert("Yarn"@[0] != "JSON"@[0]);
            assert("Yarn"@[0] != "Luau"@[0]);
            assert("Yarn"@[0] != "Rego"@[0]);
            assert("Yarn"@[0] != "reST"@[0]);
            assert("Yarn"@[0] != "Ruby"@[0]);
            assert("Yarn"@[0] != "Rust"@[0]);
            assert("Yarn"@[0] != "SCSS"@[0]);
            assert("Yarn"@[0] != "TOML"@[0]);
            assert("Yarn"@[0] != "Uiua"@[0]);
            assert("Yarn"@[1] != "YAML"@[1]);
            assert(language_named(language_name(Language::Yarn)) == Language::Yarn);
        },
        Language::Zig => {
            reveal_strlit("C++");
            reveal_strlit("CSS");
            reveal_strlit("CSV");
            reveal_strlit("Elm");
            reveal_strlit("Lua");
            reveal_strlit("Nim");
            reveal_strlit("Nix");
            reveal_strlit("PHP");
            reveal_strlit("Roc");
            reveal_strlit("SQL");
            reveal_strlit("TSX");
            reveal_strlit("Vue");
            reveal_strlit("WIT");
            reveal_strlit("XML");
            reveal_strlit("Zig");
            assert("Zig"@[0] != "C++"@[0]);
            assert("Zig"@[0] != "CSS"@[0]);
            assert("Zig"@[0] != "CSV"@[0]);
            assert("Zig"@[0] != "Elm"@[0]);
            assert("Zig"@[0] != "Lua"@[0]);
            assert("Zig"@[0] != "Nim"@[0]);
            assert("Zig"@[0] != "Nix"@[0]);
            assert("Zig"@[0] != "PHP"@[0]);
            assert("Zig"@[0] != "Roc"@[0]);
            assert("Zig"@[0] != "SQL"@[0]);
            assert("Zig"@[0] != "TSX"@[0]);
            assert("Zig"@[0] != "Vue"@[0]);
            assert("Zig"@[0] != "WIT"@[0]);
            assert("Zig"@[0] != "XML"@[0]);
            assert(language_named(language_name(Language::Zig)) == Language::Zig);
        },
        Language::Unknown => {
            reveal_strlit("Clojure");
            reveal_strlit("Crystal");
            reveal_strlit("GraphQL");
            reveal_strlit("Haskell");
            reveal_strlit("Unknown");
            assert("Unknown"@[0] != "Clojure"@[0]);
            assert("Unknown"@[0] != "Crystal"@[0]);
            assert("Unknown"@[0] != "GraphQL"@[0]);
            assert("Unknown"@[0] != "Haskell"@[0]);
            assert(language_named(language_name(Language::Unknown)) == Language::Unknown);
        },
        _ => {},
    }
}

/// A language's name names that language.
pub proof fn lemma_name_names_language(l: Language)
    ensures
        language_named(language_name(l)) == l,
{
    match l {
        Language::AsciiDoc => lemma_names_part_0(l),
        Language::Astro => lemma_names_part_0(l),
        Language::Bash => lemma_names_part_0(l),
        Language::Biome => lemma_names_part_0(l),
        Language::C => lemma_names_part_0(l),
        Language::CSharp => lemma_names_part_0(l),
        Language::CPlusPlus => lemma_names_part_1(l),
        Language::Clojure => lemma_names_part_1(l),
        Language::CSS => lemma_names_part_1(l),
        Language::CSV => lemma_names_part_1(l),
        Language::Crystal => lemma_names_part_1(l),
        Language::D => lemma_names_part_1(l),
        Language::Dart => lemma_names_part_2(l),
        Language::Deno => lemma_names_part_2(l),
        Language::Docker => lemma_names_part_2(l),
        Language::Elixir => lemma_names_part_2(l),
        Language::Elm => lemma_names_part_2(l),
        Language::Emmet => lemma_names_part_2(l),
        Language::Erlang => lemma_names_part_3(l),
        Language::Fish => lemma_names_part_3(l),
        Language::FSharp => lemma_names_part_3(l),
        Language::GDScript => lemma_names_part_3(l),
        Language::GitCommit => lemma_names_part_3(l),
        Language::Gleam => lemma_names_part_3(l),
        Language::GLSL => lemma_names_part_4(l),
        Language::Go => lemma_names_part_4(l),
        Language::GraphQL => lemma_names_part_4(l),
        Language::Groovy => lemma_names_part_4(l),
        Language::Haskell => lemma_names_part_4(l),
        Language::HEEX => lemma_names_part_4(l),
        Language::HTML => lemma_names_part_5(l),
        Language::Hy => lemma_names_part_5(l),
        Language::Idris => lemma_names_part_5(l),
        Language::Java => lemma_names_part_5(l),
        Language::JavaScript => lemma_names_part_5(l),
        Language::JSON => lemma_names_part_5(l),
        Language::JSONC => lemma_names_part_6(l),
        Language::Julia => lemma_names_part_6(l),
        Language::Kotlin => lemma_names_part_6(l),
        Language::LaTeX => lemma_names_part_6(l),
        Language::Lua => lemma_names_part_6(l),
        Language::Luau => lemma_names_part_6(l),
        Language::Makefile => lemma_names_part_7(l),
        Language::Markdown => lemma_names_part_7(l),
        Language::Nim => lemma_names_part_7(l),
        Language::Nix => lemma_names_part_7(l),
        Language::OCaml => lemma_names_part_7(l),
        Language::PHP => lemma_names_part_7(l),
        Language::PlainText => lemma_names_part_8(l),
        Language::Prisma => lemma_names_part_8(l),
        Language::Proto => lemma_names_part_8(l),
        Language::PureScript => lemma_names_part_8(l),
        Language::Python => lemma_names_part_8(l),
        Language::R => lemma_names_part_8(l),
        Language::Racket => lemma_names_part_9(l),
        Language::Rego => lemma_names_part_9(l),
        Language::reST => lemma_names_part_9(l),
        Language::ReStructuredText => lemma_names_part_9(l),
        Language::Roc => lemma_names_part_9(l),
        Language::Ruby => lemma_names_part_9(l),
        Language::Rust => lemma_names_part_10(l),
        Language::Scala => lemma_names_part_10(l),
        Language::Scheme => lemma_names_part_10(l),
        Language::SCSS => lemma_names_part_10(l),
        Language::ShellScript => lemma_names_part_10(l),
        Language::SQL => lemma_names_part_10(l),
        Language::Svelte => lemma_names_part_11(l),
        Language::Swift => lemma_names_part_11(l),
        Language::TailwindCSS => lemma_names_part_11(l),
        Language::Terraform => lemma_names_part_11(l),
        Language::TOML => lemma_names_part_11(l),
        Language::TSX => lemma_names_part_11(l),
        Language::TypeScript => lemma_names_part_12(l),
        Language::Typst => lemma_names_part_12(l),
        Language::Uiua => lemma_names_part_12(l),
        Language::Vue => lemma_names_part_12(l),
        Language::VueJs => lemma_names_part_12(l),
        Language::WIT => lemma_names_part_12(l),
        Language::XML => lemma_names_part_13(l),
        Language::YAML => lemma_names_part_13(l),
        Language::Yarn => lemma_names_part_13(l),
        Language::Zig => lemma_names_part_13(l),
        Language::Unknown => lemma_names_part_13(l),
    }
}

/// Each language has a name of its own: `Language::from_id` given the name
/// of a language gives that language back.
pub proof fn lemma_language_name_injective(a: Language, b: Language)
    requires
        language_name(a) == language_name(b),
    ensures
        a == b,
{
    lemma_name_names_language(a);
    lemma_name_names_language(b);
}

} // verus!
