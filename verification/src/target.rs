//! Target-triple handling.
//!
//! A target triple is an opaque platform identifier; the host's triple is
//! derived from the architecture and operating-system names that the caller
//! observed on the running machine.
use vstd::prelude::*;

verus! {

/// Characters a target triple may hold: anything printable except the
/// delimiters of the manifest format.
pub open spec fn triple_char_ok(c: char) -> bool {
    c != '\n' && c != '"' && c != ']' && c != '.'
}

/// A well-formed target triple: non-empty, free of manifest delimiters.
pub open spec fn triple_ok(s: Seq<char>) -> bool {
    s.len() > 0 && forall|i: int| 0 <= i < s.len() ==> triple_char_ok(#[trigger] s[i])
}

/// A platform identifier such as an architecture-vendor-os string.
#[derive(Debug)]
pub struct TargetTriple {
    pub text: String,
}

impl TargetTriple {
    pub open spec fn wf(&self) -> bool {
        triple_ok(self.text@)
    }

    /// Accepts any non-empty identifier free of manifest delimiters.
    pub fn new(s: &str) -> (r: Result<TargetTriple, crate::errors::Error>)
        ensures
            r is Ok <==> triple_ok(s@),
            r matches Ok(t) ==> t.text@ == s@ && t.wf(),
    {
        let len = vstd::string::StrSliceExecFns::unicode_len(s);
        if len == 0 {
            return Err(
                crate::errors::Error::Resolution {
                    message: crate::strutil::str_to_string("unknown target triple"),
                },
            );
        }
        let mut i: usize = 0;
        while i < len
            invariant
                len == s@.len(),
                i <= len,
                forall|j: int| 0 <= j < i ==> triple_char_ok(#[trigger] s@[j]),
            decreases len - i,
        {
            let c = vstd::string::StrSliceExecFns::get_char(s, i);
            if c == '\n' || c == '"' || c == ']' || c == '.' {
                return Err(
                    crate::errors::Error::Resolution {
                        message: crate::strutil::str_concat("unknown target triple: ", s),
                    },
                );
            }
            i = i + 1;
        }
        Ok(TargetTriple { text: crate::strutil::str_to_string(s) })
    }

    /// The single authoritative host-detection rule: maps the observed
    /// architecture and operating-system names to the host's triple.
    /// Unknown platforms are fatal.
    pub fn from_host(architecture: &str, os: &str) -> (r: Result<
        TargetTriple,
        crate::errors::Error,
    >)
        ensures
            r is Ok <==> ((architecture@ == "x86_64"@ || architecture@ == "aarch64"@) && (os@
                == "linux"@ || os@ == "macos"@)),
            r matches Ok(t) ==> t.wf() && (if os@ == "linux"@ {
                t.text@ == architecture@ + "-unknown-linux-gnu"@
            } else {
                t.text@ == architecture@ + "-apple-darwin"@
            }),
    {
        let arch_ok = crate::strutil::str_eq(architecture, "x86_64") || crate::strutil::str_eq(
            architecture,
            "aarch64",
        );
        if !arch_ok {
            return Err(
                crate::errors::Error::Resolution {
                    message: crate::strutil::str_concat("unsupported architecture: ", architecture),
                },
            );
        }
        let text = if crate::strutil::str_eq(os, "linux") {
            crate::strutil::str_concat(architecture, "-unknown-linux-gnu")
        } else if crate::strutil::str_eq(os, "macos") {
            crate::strutil::str_concat(architecture, "-apple-darwin")
        } else {
            return Err(
                crate::errors::Error::Resolution {
                    message: crate::strutil::str_concat("unsupported os: ", os),
                },
            );
        };
        proof {
            reveal_strlit("x86_64");
            reveal_strlit("aarch64");
            reveal_strlit("-unknown-linux-gnu");
            reveal_strlit("-apple-darwin");
            reveal_strlit("linux");
            reveal_strlit("macos");
            assert forall|i: int| 0 <= i < text@.len() implies triple_char_ok(
                #[trigger] text@[i],
            ) by {
                if architecture@ == "x86_64"@ {
                    assert(architecture@.len() == 6);
                } else {
                    assert(architecture@.len() == 7);
                }
            }
        }
        Ok(TargetTriple { text })
    }
}

} // verus!
