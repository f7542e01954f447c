//! The structure of the output document: a fixed header declaring the
//! document class and packages, the synthesized body, and a fixed
//! footer with the end markers.

use vstd::prelude::*;

verus! {

/// The fixed document header.
pub open spec fn spec_header() -> Seq<char> {
    "\\documentclass[convert={density=300,outext=.png}]{standalone}\n\\usepackage[margin=1in]{geometry}\n\\usepackage{tikz}\n\\usetikzlibrary{quantikz}\n\\begin{document}\n\\begin{tikzcd}"@
}

/// The fixed document footer.
pub open spec fn spec_footer() -> Seq<char> {
    "\\end{tikzcd}\n\\end{document}"@
}

/// The whole document: header, body, footer, concatenated.
pub open spec fn spec_document(body: Seq<char>) -> Seq<char> {
    spec_header() + body + spec_footer()
}

/// A document consists of metadata defining the setup and packages in
/// a header and footer, while the body holds the content.
pub struct Document {
    pub header: String,
    pub body: String,
    pub footer: String,
}

impl Default for Document {
    /// The fixed header and footer around an empty body.
    fn default() -> (r: Self)
        ensures
            r.header@ == spec_header(),
            r.body@ == Seq::<char>::empty(),
            r.footer@ == spec_footer(),
    {
        Self {
            header: String::from_str(
                "\\documentclass[convert={density=300,outext=.png}]{standalone}\n\\usepackage[margin=1in]{geometry}\n\\usepackage{tikz}\n\\usetikzlibrary{quantikz}\n\\begin{document}\n\\begin{tikzcd}",
            ),
            body: String::new(),
            footer: String::from_str("\\end{tikzcd}\n\\end{document}"),
        }
    }
}

impl Document {
    /// Returns the entire document as one string.
    pub fn render(&self) -> (r: String)
        ensures
            r@ == self.header@ + self.body@ + self.footer@,
    {
        let mut acc = self.header.clone();
        acc.append(self.body.as_str());
        acc.append(self.footer.as_str());
        acc
    }
}

} // verus!
