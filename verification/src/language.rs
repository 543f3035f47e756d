//! What a target language is to the compiler: a name, a file extension and
//! a template document.

use vstd::prelude::*;
use crate::glang::emit::text_result_view;
use crate::glang::template::TemplateError;
use crate::glang::{refused_output, template_output};
use crate::items::Program;

verus! {

/// A target language.
pub trait Language {
    /// The identifier of the language.
    spec fn id(&self) -> Seq<char>;

    /// The extension of the files of the language.
    spec fn file_extension(&self) -> Seq<char>;

    /// The template document of the language.
    spec fn template_text(&self) -> Seq<char>;

    /// The identifier by which the language is asked for.
    fn lang_id(&self) -> (id: &'static str)
        ensures
            id@ == self.id(),
    ;

    /// The extension of the files that are generated for the language.
    fn extension(&self) -> (ext: &'static str)
        ensures
            ext@ == self.file_extension(),
    ;

    /// The template document through which programs are rendered.
    fn template(&self) -> (source: &'static str)
        ensures
            source@ == self.template_text(),
    ;

    /// The source text of `program` in the language.
    fn generate(&self, program: &Program) -> (r: Result<String, TemplateError>)
        ensures
            text_result_view(r) == template_output(self.template_text(), program@)
                || text_result_view(r) == refused_output(self.template_text()),
    ;
}

} // verus!
