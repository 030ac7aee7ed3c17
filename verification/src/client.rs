//! What the server knows of the client it serves.

use vstd::prelude::*;

use crate::text::{chars_of, concat_chars, str_eq, string_of};

verus! {

#[derive(Debug, Clone, PartialEq, Eq, Hash, PartialOrd, Ord)]
pub enum Editor {
    Zed,
    VSCode,
    Unknown(String),
}

/// The name of an editor, as it is written out.
pub open spec fn editor_name(e: Editor) -> Seq<char> {
    match e {
        Editor::Zed => "Zed"@,
        Editor::VSCode => "VSCode"@,
        Editor::Unknown(s) => s@,
    }
}

impl Editor {
    /// The editor of the given name: `Zed` and `VSCode` by their exact
    /// names, any other name as `Unknown`.
    pub fn from_name(name: &str) -> (e: Editor)
        ensures
            name@ == "Zed"@ ==> e is Zed,
            name@ == "VSCode"@ ==> e is VSCode,
            name@ != "Zed"@ && name@ != "VSCode"@ ==> (e matches Editor::Unknown(s) && s@
                == name@),
    {
        proof {
            reveal_strlit("Zed");
            reveal_strlit("VSCode");
            assert("Zed"@.len() != "VSCode"@.len());
        }
        if str_eq(name, "Zed") {
            Editor::Zed
        } else if str_eq(name, "VSCode") {
            Editor::VSCode
        } else {
            Editor::Unknown(string_of(chars_of(name).as_slice()))
        }
    }

    /// The name of this editor, as it is written out.
    pub fn name(&self) -> (s: String)
        ensures
            s@ == editor_name(*self),
    {
        match self {
            Editor::Zed => string_of(chars_of("Zed").as_slice()),
            Editor::VSCode => string_of(chars_of("VSCode").as_slice()),
            Editor::Unknown(s) => string_of(chars_of(s.as_str()).as_slice()),
        }
    }
}

#[derive(Debug, Clone)]
pub struct ClientMetadata {
    pub editor: Editor,
    pub support_document_link: bool,
}

/// `true` or `false`, as written out.
pub open spec fn bool_text(b: bool) -> Seq<char> {
    if b {
        "true"@
    } else {
        "false"@
    }
}

/// How the metadata of a client is written out.
pub open spec fn metadata_text(m: ClientMetadata) -> Seq<char> {
    "\n    editor: "@ + editor_name(m.editor) + "\n    support_document_link: "@ + bool_text(
        m.support_document_link,
    )
}

impl Default for ClientMetadata {
    fn default() -> (r: Self)
        ensures
            r.editor matches Editor::Unknown(s) && s@ == "unknown"@,
            r.support_document_link,
    {
        Self {
            editor: Editor::Unknown(string_of(chars_of("unknown").as_slice())),
            support_document_link: true,
        }
    }
}

impl ClientMetadata {
    /// The metadata written out, one indented field per line.
    pub fn describe(&self) -> (s: String)
        ensures
            s@ == metadata_text(*self),
    {
        let a = concat_chars(
            chars_of("\n    editor: ").as_slice(),
            chars_of(self.editor.name().as_str()).as_slice(),
        );
        let b = concat_chars(a.as_slice(), chars_of("\n    support_document_link: ").as_slice());
        let flag = if self.support_document_link {
            chars_of("true")
        } else {
            chars_of("false")
        };
        let c = concat_chars(b.as_slice(), flag.as_slice());
        string_of(c.as_slice())
    }
}

} // verus!
