//! The output file-name template: a name ending in `_en.arb`, whose `en`
//! part is replaced by each bundle's locale.

use vstd::prelude::*;
use vstd::string::*;

use crate::strutil::{push_char, str_eq};

verus! {

/// The required suffix of a template file name.
pub open spec fn spec_template_suffix() -> Seq<char> {
    "_en.arb"@
}

/// Whether a template name is acceptable: it ends in `_en.arb`.
pub open spec fn spec_template_ok(template: Seq<char>) -> bool {
    template.len() >= 7 && template.skip(template.len() - 7) == spec_template_suffix()
}

/// A validated output file-name template, kept as the part before `_en.arb`.
#[derive(Debug, Clone, PartialEq)]
pub struct ArbFileNameTemplate {
    prefix: String,
}

impl View for ArbFileNameTemplate {
    type V = Seq<char>;

    closed spec fn view(&self) -> Seq<char> {
        self.prefix@
    }
}

impl ArbFileNameTemplate {
    /// Accepts a template name ending in `_en.arb` and keeps its prefix;
    /// any other name is rejected.
    pub fn new(template: &str) -> (r: Result<Self, String>)
        ensures
            match r {
                Ok(t) => spec_template_ok(template@) && t@ == template@.take(template@.len() - 7),
                Err(_) => !spec_template_ok(template@),
            },
    {
        let n = template.unicode_len();
        if n < 7 {
            return Err(String::from_str("Template file name must end with '_en.arb'"));
        }
        let suffix = template.substring_char(n - 7, n);
        proof {
            assert(suffix@ =~= template@.skip(template@.len() - 7));
        }
        if !str_eq(suffix, "_en.arb") {
            return Err(String::from_str("Template file name must end with '_en.arb'"));
        }
        let prefix_slice = template.substring_char(0, n - 7);
        proof {
            assert(prefix_slice@ =~= template@.take(template@.len() - 7));
        }
        Ok(ArbFileNameTemplate { prefix: String::from_str(prefix_slice) })
    }

    /// The output file name for one locale: `<prefix>_<locale>.arb`.
    pub fn get_file_name(&self, locale: &str) -> (r: String)
        ensures
            r@ == self@ + seq!['_'] + locale@ + ".arb"@,
    {
        let mut s = self.prefix.clone();
        push_char(&mut s, '_');
        s.append(locale);
        s.append(".arb");
        proof {
            assert(s@ =~= self@ + seq!['_'] + locale@ + ".arb"@);
        }
        s
    }
}

} // verus!
