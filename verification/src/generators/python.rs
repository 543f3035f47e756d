//! Python: data classes and enums.

use vstd::prelude::*;
use crate::glang::render_template;
use crate::glang::template::TemplateError;
use crate::items::Program;
use crate::language::Language;

verus! {

/// The template document for Python.
pub const PYTHON_TEMPLATE: &'static str = "#prelude
from __future__ import annotations

from dataclasses import dataclass
from enum import Enum
from typing import Dict, List, Optional
#end/prelude

#types
string { str }
int { int }
float { float }
bool { bool }
array { List[%T%] }
map { Dict[str, %T%] }
null { Optional[%T%] }
struct { %T% }
#end/types

#field_visitor
%name%: %ty%
#end/field_visitor

#message_struct
@dataclass
class %name%:
    %fields%
#end/message_struct

#enum_variant_visitor
%name% = %val%
#end/enum_variant_visitor

#message_enum
class %name%(Enum):
    %variants%
#end/message_enum
";

/// The generator for Python.
pub struct PythonGenerator {
    _phantom: (),
}

impl PythonGenerator {
    /// The generator for Python.
    pub fn new() -> Self {
        Self { _phantom: () }
    }
}

impl Language for PythonGenerator {
    open spec fn id(&self) -> Seq<char> {
        "py"@
    }

    open spec fn file_extension(&self) -> Seq<char> {
        "py"@
    }

    open spec fn template_text(&self) -> Seq<char> {
        PYTHON_TEMPLATE@
    }

    fn lang_id(&self) -> (id: &'static str) {
        "py"
    }

    fn extension(&self) -> (ext: &'static str) {
        "py"
    }

    fn template(&self) -> (source: &'static str) {
        PYTHON_TEMPLATE
    }

    fn generate(&self, program: &Program) -> (r: Result<String, TemplateError>) {
        render_template(PYTHON_TEMPLATE, program)
    }
}

} // verus!
