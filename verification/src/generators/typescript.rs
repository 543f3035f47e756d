//! TypeScript: classes and enums.

use vstd::prelude::*;
use crate::glang::render_template;
use crate::glang::template::TemplateError;
use crate::items::Program;
use crate::language::Language;

verus! {

/// The template document for TypeScript.
pub const TYPESCRIPT_TEMPLATE: &'static str = "#prelude
/* eslint-disable */
#end/prelude

#types
string { string }
int { number }
float { number }
bool { boolean }
array { Array<%T%> }
map { Record<string, %T%> }
null { (%T%) | null }
struct { %T% }
#end/types

#field_visitor
public %name%!: %ty%;
#end/field_visitor

#message_struct
export class %name% {
    %fields%
}
#end/message_struct

#enum_variant_visitor
%name% = %val%
#end/enum_variant_visitor

#message_enum
export enum %name% {
    %variants/,/+%
}
#end/message_enum
";

/// The generator for TypeScript.
pub struct TypeScriptGenerator {
    _phantom: (),
}

impl TypeScriptGenerator {
    /// The generator for TypeScript.
    pub fn new() -> Self {
        Self { _phantom: () }
    }
}

impl Language for TypeScriptGenerator {
    open spec fn id(&self) -> Seq<char> {
        "ts"@
    }

    open spec fn file_extension(&self) -> Seq<char> {
        "ts"@
    }

    open spec fn template_text(&self) -> Seq<char> {
        TYPESCRIPT_TEMPLATE@
    }

    fn lang_id(&self) -> (id: &'static str) {
        "ts"
    }

    fn extension(&self) -> (ext: &'static str) {
        "ts"
    }

    fn template(&self) -> (source: &'static str) {
        TYPESCRIPT_TEMPLATE
    }

    fn generate(&self, program: &Program) -> (r: Result<String, TemplateError>) {
        render_template(TYPESCRIPT_TEMPLATE, program)
    }
}

} // verus!
