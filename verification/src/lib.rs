//! A schema compiler: a front end that lexes and parses a small record and
//! enumeration definition language into a validated program model, and a
//! template engine that renders that model as source text of a target
//! language.

pub mod text;

pub mod token;

pub mod items;

pub mod lexer;

pub mod grammar;

pub mod parser;

pub mod glang;

pub mod codegen;

pub mod language;

pub mod generators;

pub mod validation;
