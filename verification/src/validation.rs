//! What holds of every program that the parser hands back: the checks that
//! make a parsed schema a validated one.

use vstd::prelude::*;
use crate::grammar::{
    add_pending, check_name, consume, consumed_kind, enum_names, expect, final_errors, initial_state,
    is_defined, lemma_parse_fields_shrinks, lemma_parse_type_shrinks,
    lemma_parse_variants_shrinks, lookahead_is, outcome, parse_declarations, parse_enum,
    parse_fields, parse_ident, parse_inner_type, parse_named_type, parse_struct, parse_tokens,
    parse_type, parse_variant_value, parse_variants, primitive_of, put_enum, put_struct,
    recursive_type, remove_pending, reserved_name, struct_names, syntax_error, with_error,
    EnumProgress, ParseErrorView, ParseState,
};
use crate::items::{
    EnumDefinitionView, EnumVariantValueView, EnumVariantView, PrimitiveType, ProgramView,
    StructDefinitionView, StructFieldView, TyKindView,
};
use crate::text::{index_of, lemma_contains_index_of, lemma_index_of, lemma_index_of_found};
use crate::token::{TokenKindView, TokenView};

verus! {

/// Whether no name stands twice in a sequence.
pub open spec fn distinct(names: Seq<Seq<char>>) -> bool {
    forall|i: int, j: int| 0 <= i < j < names.len() ==> names[i] != names[j]
}

/// Whether a type names the struct or enum `name` anywhere inside it.
pub open spec fn mentions(ty: TyKindView, name: Seq<char>) -> bool
    decreases ty, 0nat,
{
    match ty {
        TyKindView::Primitive(_) => false,
        TyKindView::UserDefined(n) => n == name,
        TyKindView::Nullable(inner) => mentions(*inner, name),
        TyKindView::Array(inner) => mentions(*inner, name),
        TyKindView::MapOf(inner) => mentions(*inner, name),
        TyKindView::Tuple(elements) => any_mentions(elements, elements.len(), name),
    }
}

/// Whether one of the first `n` types names `name`.
pub open spec fn any_mentions(elements: Seq<TyKindView>, n: nat, name: Seq<char>) -> bool
    decreases elements, n,
{
    if n == 0 || n > elements.len() {
        false
    } else {
        mentions(elements[n - 1], name) || any_mentions(elements, (n - 1) as nat, name)
    }
}

/// Whether the values of the variants are all integers or all strings.
pub open spec fn uniform(variants: Seq<EnumVariantView>) -> bool {
    ||| forall|i: int| 0 <= i < variants.len() ==> (#[trigger] variants[i]).value is Int
    ||| forall|i: int| 0 <= i < variants.len() ==> (#[trigger] variants[i]).value is String
}

/// Whether a struct or an enum of the program is called `name`.
pub open spec fn declares(program: ProgramView, name: Seq<char>) -> bool {
    struct_names(program.structs).contains(name) || enum_names(program.enums).contains(name)
}

/// Whether a program is valid: every name is declared once and is no
/// reserved word, every type that a field names is declared, no struct has
/// a field of its own type, and within an enum all values are of one kind.
pub open spec fn valid_program(program: ProgramView) -> bool {
    &&& distinct(struct_names(program.structs))
    &&& distinct(enum_names(program.enums))
    &&& forall|name: Seq<char>|
        !(#[trigger] struct_names(program.structs).contains(name) && enum_names(
            program.enums,
        ).contains(name))
    &&& forall|name: Seq<char>| #[trigger] declares(program, name) ==> !reserved_name(name)
    &&& forall|k: int, i: int|
        0 <= k < program.structs.len() && 0 <= i < program.structs[k].fields.len()
            ==> !recursive_type(
            program.structs[k].name,
            (#[trigger] program.structs[k].fields[i]).datatype,
        )
    &&& forall|k: int, i: int, name: Seq<char>|
        0 <= k < program.structs.len() && 0 <= i < program.structs[k].fields.len()
            && #[trigger] mentions(program.structs[k].fields[i].datatype, name) ==> declares(
            program,
            name,
        )
    &&& forall|k: int| 0 <= k < program.enums.len() ==> uniform((#[trigger] program.enums[k]).variants)
}

/// Whether the parser knows a name: it is declared, or it is pending.
pub open spec fn known(s: ParseState, name: Seq<char>) -> bool {
    is_defined(s, name) || s.pending.contains(name)
}

/// Whether the parser knows every name that a type names.
pub open spec fn covered(s: ParseState, ty: TyKindView) -> bool {
    forall|name: Seq<char>| #[trigger] mentions(ty, name) ==> known(s, name)
}

/// Whether fields may stand in the struct `name`: none is of the struct's
/// own type, and, as long as there is no error, the parser knows every name
/// that their types name.
pub open spec fn fields_kept(s: ParseState, name: Seq<char>, fields: Seq<StructFieldView>) -> bool {
    forall|i: int|
        0 <= i < fields.len() ==> !recursive_type(name, (#[trigger] fields[i]).datatype) && (
        s.errors.len() == 0 ==> covered(s, fields[i].datatype))
}

/// What the parser keeps true of its state from one declaration to the
/// next.
pub open spec fn kept(s: ParseState) -> bool {
    &&& distinct(struct_names(s.structs))
    &&& distinct(enum_names(s.enums))
    &&& distinct(s.pending)
    &&& forall|k: int|
        0 <= k < s.structs.len() ==> fields_kept(
            s,
            (#[trigger] s.structs[k]).name,
            s.structs[k].fields,
        )
    &&& s.errors.len() == 0 ==> {
        &&& forall|name: Seq<char>|
            !(#[trigger] struct_names(s.structs).contains(name) && enum_names(s.enums).contains(
                name,
            ))
        &&& forall|name: Seq<char>| #[trigger] is_defined(s, name) ==> !reserved_name(name)
        &&& forall|k: int| 0 <= k < s.enums.len() ==> uniform((#[trigger] s.enums[k]).variants)
    }
}

/// Whether `t` is a state that the parser can come to from `s` inside one
/// declaration: the declarations are the same, no name has been forgotten,
/// and the errors of `s` are the first errors of `t`.
pub open spec fn grown(s: ParseState, t: ParseState) -> bool {
    &&& t.structs == s.structs
    &&& t.enums == s.enums
    &&& t.end == s.end
    &&& t.errors.len() >= s.errors.len()
    &&& t.errors.take(s.errors.len() as int) == s.errors
    &&& distinct(s.pending) ==> distinct(t.pending)
    &&& forall|name: Seq<char>| s.pending.contains(name) ==> #[trigger] t.pending.contains(name)
}

/// A state that has grown knows what it knew.
proof fn lemma_grown_knows(s: ParseState, t: ParseState)
    requires
        grown(s, t),
    ensures
        forall|name: Seq<char>| known(s, name) ==> #[trigger] known(t, name),
        forall|ty: TyKindView| covered(s, ty) ==> #[trigger] covered(t, ty),
        forall|name: Seq<char>, fields: Seq<StructFieldView>|
            fields_kept(s, name, fields) ==> #[trigger] fields_kept(t, name, fields),
{
    assert forall|name: Seq<char>| known(s, name) implies #[trigger] known(t, name) by {
        if s.pending.contains(name) {
            assert(t.pending.contains(name));
        }
    }
    assert forall|ty: TyKindView| covered(s, ty) implies #[trigger] covered(t, ty) by {
        assert forall|name: Seq<char>| #[trigger] mentions(ty, name) implies known(t, name) by {
            assert(known(s, name));
        }
    }
    assert forall|name: Seq<char>, fields: Seq<StructFieldView>|
        fields_kept(s, name, fields) implies #[trigger] fields_kept(t, name, fields) by {
        assert forall|i: int| 0 <= i < fields.len() implies !recursive_type(
            name,
            (#[trigger] fields[i]).datatype,
        ) && (t.errors.len() == 0 ==> covered(t, fields[i].datatype)) by {
            if t.errors.len() == 0 {
                assert(covered(s, fields[i].datatype));
            }
        }
    }
}

/// Growing twice is growing.
proof fn lemma_grown_twice(s: ParseState, t: ParseState, u: ParseState)
    requires
        grown(s, t),
        grown(t, u),
    ensures
        grown(s, u),
{
    assert forall|name: Seq<char>| s.pending.contains(name) implies #[trigger] u.pending.contains(
        name,
    ) by {
        assert(t.pending.contains(name));
    }
    assert(u.errors.take(s.errors.len() as int) =~= s.errors) by {
        assert forall|i: int| 0 <= i < s.errors.len() implies u.errors[i] == s.errors[i] by {
            assert(t.errors.take(s.errors.len() as int)[i] == t.errors[i]);
            assert(u.errors.take(t.errors.len() as int)[i] == u.errors[i]);
        }
    }
}

/// A state has grown from itself, and from itself with other tokens or
/// other pending names that forget none.
proof fn lemma_grown_same_errors(s: ParseState, t: ParseState)
    requires
        t.structs == s.structs,
        t.enums == s.enums,
        t.end == s.end,
        t.errors == s.errors || exists|e: ParseErrorView| t.errors == s.errors.push(e),
        distinct(s.pending) ==> distinct(t.pending),
        forall|name: Seq<char>| s.pending.contains(name) ==> #[trigger] t.pending.contains(name),
    ensures
        grown(s, t),
{
    assert(t.errors.take(s.errors.len() as int) =~= s.errors);
}

/// Noting a name as pending forgets none and keeps the names apart.
proof fn lemma_add_pending(pending: Seq<Seq<char>>, name: Seq<char>)
    ensures
        add_pending(pending, name).contains(name),
        forall|n: Seq<char>| pending.contains(n) ==> #[trigger] add_pending(pending, name).contains(n),
        distinct(pending) ==> distinct(add_pending(pending, name)),
{
    let more = add_pending(pending, name);
    if !pending.contains(name) {
        assert(more[pending.len() as int] == name);
        assert forall|n: Seq<char>| pending.contains(n) implies #[trigger] more.contains(n) by {
            let i = choose|i: int| 0 <= i < pending.len() && pending[i] == n;
            assert(more[i] == n);
        }
        if distinct(pending) {
            assert forall|i: int, j: int| 0 <= i < j < more.len() implies more[i] != more[j] by {
                if j == pending.len() {
                    assert(more[i] == pending[i]);
                    if more[i] == name {
                        assert(pending.contains(name));
                    }
                } else {
                    assert(more[i] == pending[i]);
                    assert(more[j] == pending[j]);
                }
            }
        }
    }
}

/// Parsing a name grows the state.
proof fn lemma_parse_ident_grown(s: ParseState)
    ensures
        grown(s, parse_ident(s).0),
        grown(s, consume(s)),
        forall|kind: TokenKindView| grown(s, #[trigger] expect(s, kind)),
        forall|e: ParseErrorView| grown(s, #[trigger] with_error(s, e)),
{
    lemma_grown_same_errors(s, consume(s));
    lemma_grown_same_errors(s, parse_ident(s).0);
    assert forall|kind: TokenKindView| grown(s, #[trigger] expect(s, kind)) by {
        lemma_grown_same_errors(s, expect(s, kind));
    }
    assert forall|e: ParseErrorView| grown(s, #[trigger] with_error(s, e)) by {
        lemma_grown_same_errors(s, with_error(s, e));
    }
}

/// Parsing a type grows the state, and the parser knows every name that
/// the type names.
proof fn lemma_parse_type_grown(s: ParseState)
    ensures
        grown(s, parse_type(s).0),
        covered(parse_type(s).0, parse_type(s).1),
        grown(s, parse_inner_type(s).0),
        covered(parse_inner_type(s).0, parse_inner_type(s).1),
    decreases s.tokens.len(),
{
    let (s1, ty) = parse_inner_type(s);
    if s.tokens.len() > 0 && (s.tokens[0].kind is AngleLeft || s.tokens[0].kind is SquareLeft) {
        let s0 = consume(s);
        lemma_parse_type_grown(s0);
        let (s2, inner) = parse_type(s0);
        lemma_parse_ident_grown(s);
        lemma_parse_ident_grown(s2);
        lemma_grown_twice(s, s0, s2);
        lemma_grown_twice(s, s2, s1);
        lemma_grown_knows(s2, s1);
        assert(covered(s1, ty)) by {
            assert forall|name: Seq<char>| #[trigger] mentions(ty, name) implies known(s1, name) by {
                assert(mentions(inner, name));
                assert(known(s2, name));
            }
        }
    } else {
        let (s0, name) = parse_ident(s);
        lemma_parse_ident_grown(s);
        lemma_add_pending(s0.pending, name);
        lemma_grown_same_errors(s0, s1);
        lemma_grown_twice(s, s0, s1);
        assert(covered(s1, ty)) by {
            assert forall|n: Seq<char>| #[trigger] mentions(ty, n) implies known(s1, n) by {
                if primitive_of(name) is None {
                    assert(n == name);
                    if !is_defined(s0, name) {
                        assert(s1.pending.contains(name));
                    }
                }
            }
        }
    }
    let (s3, whole) = parse_type(s);
    lemma_parse_ident_grown(s1);
    lemma_grown_twice(s, s1, s3);
    lemma_grown_knows(s1, s3);
    assert(covered(s3, whole)) by {
        assert forall|n: Seq<char>| #[trigger] mentions(whole, n) implies known(s3, n) by {
            assert(mentions(ty, n));
            assert(known(s1, n));
        }
    }
}

/// Parsing fields grows the state and keeps the fields fit for their
/// struct.
proof fn lemma_parse_fields_kept(s: ParseState, name: Seq<char>, fields: Seq<StructFieldView>)
    requires
        fields_kept(s, name, fields),
    ensures
        grown(s, parse_fields(s, name, fields).0),
        fields_kept(parse_fields(s, name, fields).0, name, parse_fields(s, name, fields).1),
    decreases s.tokens.len(),
{
    lemma_grown_same_errors(s, s);
    if !lookahead_is(s, TokenKindView::BraceRight) {
        let (s1, field_name) = parse_ident(s);
        let s2 = expect(s1, TokenKindView::Colon);
        let (s3, ty) = parse_type(s2);
        lemma_parse_ident_grown(s);
        lemma_parse_ident_grown(s1);
        lemma_parse_type_grown(s2);
        lemma_parse_type_shrinks(s2);
        lemma_grown_twice(s, s1, s2);
        lemma_grown_twice(s, s2, s3);
        lemma_grown_knows(s, s3);
        if recursive_type(name, ty) {
            let s4 = with_error(s3, ParseErrorView::RecursiveType(name));
            lemma_parse_ident_grown(s3);
            lemma_grown_twice(s, s3, s4);
            lemma_grown_knows(s, s4);
            if !lookahead_is(s4, TokenKindView::Eof) {
                lemma_parse_fields_kept(s4, name, fields);
                lemma_grown_twice(s, s4, parse_fields(s4, name, fields).0);
            }
        } else {
            let field = StructFieldView { datatype: ty, name: field_name };
            let more = fields.push(field);
            assert(fields_kept(s3, name, more)) by {
                assert forall|i: int| 0 <= i < more.len() implies !recursive_type(
                    name,
                    (#[trigger] more[i]).datatype,
                ) && (s3.errors.len() == 0 ==> covered(s3, more[i].datatype)) by {
                    if i < fields.len() {
                        assert(more[i] == fields[i]);
                    }
                }
            }
            if lookahead_is(s3, TokenKindView::Comma) {
                let s4 = consume(s3);
                lemma_parse_ident_grown(s3);
                lemma_grown_twice(s, s3, s4);
                lemma_grown_knows(s3, s4);
                lemma_parse_fields_kept(s4, name, more);
                lemma_grown_twice(s, s4, parse_fields(s4, name, more).0);
            }
        }
    }
}

/// A state that has grown from one that is kept is kept.
proof fn lemma_grown_kept(s: ParseState, t: ParseState)
    requires
        kept(s),
        grown(s, t),
    ensures
        kept(t),
{
    lemma_grown_knows(s, t);
    assert forall|k: int| 0 <= k < t.structs.len() implies fields_kept(
        t,
        (#[trigger] t.structs[k]).name,
        t.structs[k].fields,
    ) by {
        assert(fields_kept(s, s.structs[k].name, s.structs[k].fields));
    }
    if t.errors.len() == 0 {
        assert forall|name: Seq<char>| #[trigger] is_defined(t, name) implies !reserved_name(
            name,
        ) by {
            assert(is_defined(s, name));
        }
    }
}

/// Putting a struct among the structs keeps their names, and adds its name
/// at the end if it is new.
proof fn lemma_put_struct_names(structs: Seq<StructDefinitionView>, def: StructDefinitionView)
    ensures
        struct_names(put_struct(structs, def)) == if struct_names(structs).contains(def.name) {
            struct_names(structs)
        } else {
            struct_names(structs).push(def.name)
        },
        put_struct(structs, def).len() >= structs.len(),
        forall|k: int|
            0 <= k < put_struct(structs, def).len() ==> #[trigger] put_struct(structs, def)[k]
                == def || (k < structs.len() && put_struct(structs, def)[k] == structs[k]),
{
    let names = struct_names(structs);
    lemma_contains_index_of(names, def.name);
    lemma_index_of_found(names, def.name);
    let i = index_of(names, def.name) as int;
    if i < structs.len() {
        assert(struct_names(put_struct(structs, def)) =~= names);
    } else {
        assert(struct_names(put_struct(structs, def)) =~= names.push(def.name));
    }
}

/// Putting an enum among the enums keeps their names, and adds its name at
/// the end if it is new.
proof fn lemma_put_enum_names(enums: Seq<EnumDefinitionView>, def: EnumDefinitionView)
    ensures
        enum_names(put_enum(enums, def)) == if enum_names(enums).contains(def.name) {
            enum_names(enums)
        } else {
            enum_names(enums).push(def.name)
        },
        put_enum(enums, def).len() >= enums.len(),
        forall|k: int|
            0 <= k < put_enum(enums, def).len() ==> #[trigger] put_enum(enums, def)[k] == def || (k
                < enums.len() && put_enum(enums, def)[k] == enums[k]),
{
    let names = enum_names(enums);
    lemma_contains_index_of(names, def.name);
    lemma_index_of_found(names, def.name);
    let i = index_of(names, def.name) as int;
    if i < enums.len() {
        assert(enum_names(put_enum(enums, def)) =~= names);
    } else {
        assert(enum_names(put_enum(enums, def)) =~= names.push(def.name));
    }
}

/// Names that are apart stay apart when a new one is added.
proof fn lemma_distinct_push(names: Seq<Seq<char>>, name: Seq<char>)
    requires
        distinct(names),
        !names.contains(name),
    ensures
        distinct(names.push(name)),
        forall|n: Seq<char>| #[trigger] names.push(name).contains(n) <==> names.contains(n) || n == name,
{
    let more = names.push(name);
    assert forall|i: int, j: int| 0 <= i < j < more.len() implies more[i] != more[j] by {
        assert(more[i] == names[i]);
        if j == names.len() {
            if more[i] == name {
                assert(names.contains(name));
            }
        } else {
            assert(more[j] == names[j]);
        }
    }
    assert forall|n: Seq<char>| #[trigger] more.contains(n) <==> names.contains(n) || n == name by {
        if more.contains(n) {
            let i = choose|i: int| 0 <= i < more.len() && more[i] == n;
            if i < names.len() {
                assert(names[i] == n);
            }
        }
        if names.contains(n) {
            let i = choose|i: int| 0 <= i < names.len() && names[i] == n;
            assert(more[i] == n);
        }
        if n == name {
            assert(more[names.len() as int] == n);
        }
    }
}

/// Taking a name from the pending names takes no other, and keeps the
/// names apart.
proof fn lemma_remove_pending(pending: Seq<Seq<char>>, name: Seq<char>)
    ensures
        forall|n: Seq<char>|
            pending.contains(n) && n != name ==> #[trigger] remove_pending(pending, name).contains(
                n,
            ),
        distinct(pending) ==> distinct(remove_pending(pending, name)),
{
    lemma_index_of_found(pending, name);
    let i = index_of(pending, name) as int;
    let fewer = remove_pending(pending, name);
    if i < pending.len() {
        assert forall|n: Seq<char>| pending.contains(n) && n != name implies #[trigger] fewer.contains(
            n,
        ) by {
            let j = choose|j: int| 0 <= j < pending.len() && pending[j] == n;
            if j < i {
                assert(fewer[j] == n);
            } else {
                assert(fewer[j - 1] == n);
            }
        }
        if distinct(pending) {
            assert forall|a: int, b: int| 0 <= a < b < fewer.len() implies fewer[a] != fewer[b] by {
                let x = if a < i {
                    a
                } else {
                    a + 1
                };
                let y = if b < i {
                    b
                } else {
                    b + 1
                };
                assert(fewer[a] == pending[x]);
                assert(fewer[b] == pending[y]);
            }
        }
    }
}

/// A struct that is put among the declarations keeps the state kept, if
/// its fields are fit for it and its name was checked.
proof fn lemma_put_struct_kept(s: ParseState, def: StructDefinitionView)
    requires
        kept(s),
        fields_kept(s, def.name, def.fields),
        s.errors.len() == 0 ==> !reserved_name(def.name) && !is_defined(s, def.name),
    ensures
        kept(
            ParseState {
                pending: remove_pending(s.pending, def.name),
                structs: put_struct(s.structs, def),
                ..s
            },
        ),
{
    let r = ParseState {
        pending: remove_pending(s.pending, def.name),
        structs: put_struct(s.structs, def),
        ..s
    };
    let names = struct_names(s.structs);
    lemma_put_struct_names(s.structs, def);
    lemma_remove_pending(s.pending, def.name);
    if !names.contains(def.name) {
        lemma_distinct_push(names, def.name);
    }
    assert(struct_names(r.structs).contains(def.name)) by {
        if !names.contains(def.name) {
            assert(names.push(def.name)[names.len() as int] == def.name);
        }
    }
    assert forall|n: Seq<char>| known(s, n) implies #[trigger] known(r, n) by {
        if struct_names(s.structs).contains(n) {
            if !names.contains(def.name) {
                assert(names.push(def.name).contains(n));
            }
        } else if s.pending.contains(n) {
            if n != def.name {
                assert(r.pending.contains(n));
            }
        }
    }
    assert forall|k: int| 0 <= k < r.structs.len() implies fields_kept(
        r,
        (#[trigger] r.structs[k]).name,
        r.structs[k].fields,
    ) by {
        let d = r.structs[k];
        assert(fields_kept(s, d.name, d.fields)) by {
            if d != def {
                assert(d == s.structs[k]);
            }
        }
        assert forall|i: int| 0 <= i < d.fields.len() implies !recursive_type(
            d.name,
            (#[trigger] d.fields[i]).datatype,
        ) && (r.errors.len() == 0 ==> covered(r, d.fields[i].datatype)) by {
            if r.errors.len() == 0 {
                assert(covered(s, d.fields[i].datatype));
                assert forall|n: Seq<char>| #[trigger] mentions(
                    d.fields[i].datatype,
                    n,
                ) implies known(r, n) by {
                    assert(known(s, n));
                }
            }
        }
    }
    if r.errors.len() == 0 {
        assert forall|n: Seq<char>|
            !(#[trigger] struct_names(r.structs).contains(n) && enum_names(r.enums).contains(
                n,
            )) by {
            if struct_names(r.structs).contains(n) && enum_names(r.enums).contains(n) {
                if n != def.name {
                    assert(names.contains(n));
                    assert(struct_names(s.structs).contains(n) && enum_names(s.enums).contains(n));
                }
            }
        }
        assert forall|n: Seq<char>| #[trigger] is_defined(r, n) implies !reserved_name(n) by {
            if n != def.name {
                assert(is_defined(s, n));
            }
        }
    }
}

/// An enum that is put among the declarations keeps the state kept, if its
/// values are of one kind and its name was checked.
proof fn lemma_put_enum_kept(s: ParseState, def: EnumDefinitionView)
    requires
        kept(s),
        s.errors.len() == 0 ==> uniform(def.variants) && !reserved_name(def.name) && !is_defined(
            s,
            def.name,
        ),
    ensures
        kept(
            ParseState {
                pending: remove_pending(s.pending, def.name),
                enums: put_enum(s.enums, def),
                ..s
            },
        ),
{
    let r = ParseState {
        pending: remove_pending(s.pending, def.name),
        enums: put_enum(s.enums, def),
        ..s
    };
    let names = enum_names(s.enums);
    lemma_put_enum_names(s.enums, def);
    lemma_remove_pending(s.pending, def.name);
    if !names.contains(def.name) {
        lemma_distinct_push(names, def.name);
    }
    assert(enum_names(r.enums).contains(def.name)) by {
        if !names.contains(def.name) {
            assert(names.push(def.name)[names.len() as int] == def.name);
        }
    }
    assert forall|n: Seq<char>| known(s, n) implies #[trigger] known(r, n) by {
        if enum_names(s.enums).contains(n) {
            if !names.contains(def.name) {
                assert(names.push(def.name).contains(n));
            }
        } else if s.pending.contains(n) && !struct_names(s.structs).contains(n) {
            if n != def.name {
                assert(r.pending.contains(n));
            }
        }
    }
    assert forall|k: int| 0 <= k < r.structs.len() implies fields_kept(
        r,
        (#[trigger] r.structs[k]).name,
        r.structs[k].fields,
    ) by {
        let d = r.structs[k];
        assert(fields_kept(s, d.name, d.fields));
        assert forall|i: int| 0 <= i < d.fields.len() implies !recursive_type(
            d.name,
            (#[trigger] d.fields[i]).datatype,
        ) && (r.errors.len() == 0 ==> covered(r, d.fields[i].datatype)) by {
            if r.errors.len() == 0 {
                assert(covered(s, d.fields[i].datatype));
                assert forall|n: Seq<char>| #[trigger] mentions(
                    d.fields[i].datatype,
                    n,
                ) implies known(r, n) by {
                    assert(known(s, n));
                }
            }
        }
    }
    if r.errors.len() == 0 {
        assert forall|n: Seq<char>|
            !(#[trigger] struct_names(r.structs).contains(n) && enum_names(r.enums).contains(
                n,
            )) by {
            if struct_names(r.structs).contains(n) && enum_names(r.enums).contains(n) {
                if n != def.name {
                    assert(names.contains(n));
                    assert(struct_names(s.structs).contains(n) && enum_names(s.enums).contains(n));
                }
            }
        }
        assert forall|n: Seq<char>| #[trigger] is_defined(r, n) implies !reserved_name(n) by {
            if n != def.name {
                assert(is_defined(s, n));
            }
        }
        assert forall|k: int| 0 <= k < r.enums.len() implies uniform(
            (#[trigger] r.enums[k]).variants,
        ) by {
            if r.enums[k] != def {
                assert(r.enums[k] == s.enums[k]);
            }
        }
    }
}

/// Parsing a struct keeps the state kept.
proof fn lemma_parse_struct_kept(s: ParseState)
    requires
        kept(s),
    ensures
        kept(parse_struct(s)),
        parse_struct(s).tokens.len() <= s.tokens.len(),
{
    let (s1, name) = parse_ident(s);
    let s2 = check_name(s1, name);
    let s3 = expect(s2, TokenKindView::BraceLeft);
    let (s4, fields) = parse_fields(s3, name, Seq::empty());
    let s5 = expect(s4, TokenKindView::BraceRight);
    lemma_parse_ident_grown(s);
    lemma_parse_ident_grown(s1);
    lemma_parse_ident_grown(s2);
    lemma_parse_ident_grown(s4);
    assert(grown(s1, s2));
    lemma_grown_twice(s, s1, s2);
    lemma_grown_twice(s, s2, s3);
    assert(fields_kept(s3, name, Seq::empty()));
    lemma_parse_fields_kept(s3, name, Seq::empty());
    lemma_parse_fields_shrinks(s3, name, Seq::empty());
    lemma_grown_twice(s, s3, s4);
    lemma_grown_twice(s, s4, s5);
    lemma_grown_kept(s, s5);
    lemma_grown_knows(s4, s5);
    lemma_put_struct_kept(s5, StructDefinitionView { name, fields });
}

/// What holds of the variants of an enum while they are parsed, as long as
/// there is no error: before the first variant nothing is settled, and
/// behind it all values are of the kind that is settled.
pub open spec fn variants_kept(
    s: ParseState,
    p: EnumProgress,
    variants: Seq<EnumVariantView>,
) -> bool {
    s.errors.len() == 0 ==> {
        &&& !p.decided ==> p.is_int && variants.len() == 0
        &&& p.is_int ==> forall|i: int|
            0 <= i < variants.len() ==> (#[trigger] variants[i]).value is Int
        &&& !p.is_int ==> forall|i: int|
            0 <= i < variants.len() ==> (#[trigger] variants[i]).value is String
    }
}

/// Parsing variants grows the state and, as long as there is no error,
/// gives values of one kind.
proof fn lemma_parse_variants_kept(s: ParseState, p: EnumProgress, variants: Seq<EnumVariantView>)
    requires
        variants_kept(s, p, variants),
    ensures
        grown(s, parse_variants(s, p, variants).0),
        parse_variants(s, p, variants).0.errors.len() == 0 ==> uniform(
            parse_variants(s, p, variants).1,
        ),
    decreases s.tokens.len(),
{
    lemma_grown_same_errors(s, s);
    if !lookahead_is(s, TokenKindView::BraceRight) {
        let (s1, name) = parse_ident(s);
        let (s2, settled, value) = parse_variant_value(s1, p);
        let more = variants.push(EnumVariantView { name, value });
        lemma_parse_ident_grown(s);
        lemma_parse_ident_grown(s1);
        lemma_parse_ident_grown(consume(s1));
        lemma_parse_ident_grown(consume(consume(s1)));
        lemma_grown_same_errors(s1, s2);
        lemma_grown_twice(s, s1, s2);
        let next = EnumProgress { decided: true, ..settled };
        assert(variants_kept(s2, next, more)) by {
            if s2.errors.len() == 0 {
                assert forall|i: int| 0 <= i < more.len() && settled.is_int implies (
                #[trigger] more[i]).value is Int by {
                    if i < variants.len() {
                        assert(more[i] == variants[i]);
                    }
                }
                assert forall|i: int| 0 <= i < more.len() && !settled.is_int implies (
                #[trigger] more[i]).value is String by {
                    if i < variants.len() {
                        assert(more[i] == variants[i]);
                    }
                }
            }
        }
        if lookahead_is(s2, TokenKindView::Comma) {
            let s3 = consume(s2);
            lemma_parse_ident_grown(s2);
            lemma_grown_twice(s, s2, s3);
            lemma_parse_variants_kept(s3, next, more);
            lemma_grown_twice(s, s3, parse_variants(s3, next, more).0);
        }
    }
}

/// Parsing an enum keeps the state kept.
proof fn lemma_parse_enum_kept(s: ParseState)
    requires
        kept(s),
    ensures
        kept(parse_enum(s)),
        parse_enum(s).tokens.len() <= s.tokens.len(),
{
    let (s1, name) = parse_ident(s);
    let s2 = check_name(s1, name);
    let s3 = expect(s2, TokenKindView::BraceLeft);
    let start = EnumProgress { next_value: 0, is_int: true, decided: false };
    let (s4, variants) = parse_variants(s3, start, Seq::empty());
    let s5 = expect(s4, TokenKindView::BraceRight);
    lemma_parse_ident_grown(s);
    lemma_parse_ident_grown(s1);
    lemma_parse_ident_grown(s2);
    lemma_parse_ident_grown(s4);
    assert(grown(s1, s2));
    lemma_grown_twice(s, s1, s2);
    lemma_grown_twice(s, s2, s3);
    lemma_parse_variants_kept(s3, start, Seq::empty());
    lemma_parse_variants_shrinks(s3, start, Seq::empty());
    lemma_grown_twice(s, s3, s4);
    lemma_grown_twice(s, s4, s5);
    lemma_grown_kept(s, s5);
    lemma_put_enum_kept(s5, EnumDefinitionView { name, variants });
}

/// Parsing declarations keeps the state kept.
pub proof fn lemma_parse_declarations_kept(s: ParseState)
    requires
        kept(s),
    ensures
        kept(parse_declarations(s)),
    decreases s.tokens.len(),
{
    let s1 = consume(s);
    lemma_parse_ident_grown(s);
    lemma_grown_kept(s, s1);
    if s.tokens.len() > 0 {
        match s.tokens[0].kind {
            TokenKindView::Eof => {},
            TokenKindView::Struct => {
                lemma_parse_struct_kept(s1);
                lemma_parse_declarations_kept(parse_struct(s1));
            },
            TokenKindView::Enum => {
                lemma_parse_enum_kept(s1);
                lemma_parse_declarations_kept(parse_enum(s1));
            },
            _ => {
                lemma_parse_ident_grown(s1);
                lemma_grown_kept(s1, syntax_error(s1, None));
                lemma_parse_declarations_kept(syntax_error(s1, None));
            },
        }
    }
}

/// A parser that has read nothing keeps its state.
pub proof fn lemma_initial_state_kept(tokens: Seq<TokenView>, end: TokenView)
    ensures
        kept(initial_state(tokens, end)),
{
    let start = initial_state(tokens, end);
    assert(struct_names(start.structs) =~= Seq::empty());
    assert(enum_names(start.enums) =~= Seq::empty());
}

/// What a parse that kept its state hands back is a valid program, or at
/// least one error.
pub proof fn lemma_outcome_is_valid(s: ParseState)
    requires
        kept(s),
    ensures
        match outcome(s) {
            Ok(program) => valid_program(program),
            Err(errors) => errors.len() > 0,
        },
{
    if final_errors(s).len() == 0 {
        let program = ProgramView { structs: s.structs, enums: s.enums };
        assert(s.errors.len() == 0);
        assert(s.pending.len() == 0);
        assert forall|name: Seq<char>| #[trigger] declares(program, name) implies !reserved_name(
            name,
        ) by {
            assert(is_defined(s, name));
        }
        assert forall|k: int, i: int|
            0 <= k < program.structs.len() && 0 <= i < program.structs[k].fields.len()
                implies !recursive_type(
            program.structs[k].name,
            (#[trigger] program.structs[k].fields[i]).datatype,
        ) by {
            assert(fields_kept(s, s.structs[k].name, s.structs[k].fields));
        }
        assert forall|k: int, i: int, name: Seq<char>|
            0 <= k < program.structs.len() && 0 <= i < program.structs[k].fields.len()
                && #[trigger] mentions(program.structs[k].fields[i].datatype, name) implies declares(
            program,
            name,
        ) by {
            assert(fields_kept(s, s.structs[k].name, s.structs[k].fields));
            assert(covered(s, s.structs[k].fields[i].datatype));
            assert(known(s, name));
            assert(!s.pending.contains(name));
        }
    }
}

/// The parser hands back valid programs only: whatever the tokens, a
/// program that is handed back declares every name once and none that is
/// reserved, declares every type that a field names, holds no struct with
/// a field of its own type, and holds no enum with values of two kinds. And
/// where no program is handed back, there is an error to show.
pub proof fn lemma_parsed_program_is_valid(tokens: Seq<TokenView>, end: TokenView)
    ensures
        match parse_tokens(tokens, end) {
            Ok(program) => valid_program(program),
            Err(errors) => errors.len() > 0,
        },
{
    let start = initial_state(tokens, end);
    lemma_initial_state_kept(tokens, end);
    lemma_parse_declarations_kept(start);
    lemma_outcome_is_valid(parse_declarations(start));
}

/// A struct that holds nothing but itself: where the tokens behind the
/// keyword spell `name { field: name }`, with a name that is free to take,
/// the field is left out and the struct is kept without fields, the one
/// new error is `RecursiveType(name)`, and the name is not pending.
pub proof fn lemma_self_reference_is_dropped(s: ParseState, name: Seq<char>, field: Seq<char>)
    requires
        s.tokens.len() >= 6,
        s.tokens[0].kind == TokenKindView::Identifier(name),
        s.tokens[1].kind is BraceLeft,
        s.tokens[2].kind == TokenKindView::Identifier(field),
        s.tokens[3].kind is Colon,
        s.tokens[4].kind == TokenKindView::Identifier(name),
        s.tokens[5].kind is BraceRight,
        !reserved_name(name),
        !is_defined(s, name),
        distinct(s.pending),
    ensures
        parse_struct(s).errors == s.errors.push(ParseErrorView::RecursiveType(name)),
        parse_struct(s).structs == s.structs.push(
            StructDefinitionView { name, fields: Seq::empty() },
        ),
        parse_struct(s).enums == s.enums,
        !parse_struct(s).pending.contains(name),
        parse_struct(s).pending == remove_pending(s.pending, name),
        parse_struct(s).tokens == s.tokens.skip(6),
{
    let t = s.tokens;
    let none = Seq::<StructFieldView>::empty();
    let a1 = parse_ident(s).0;
    assert(a1.tokens =~= t.skip(1));
    assert(check_name(a1, name) == a1);
    let a3 = expect(a1, TokenKindView::BraceLeft);
    assert(a3.tokens =~= t.skip(2));
    let b1 = parse_ident(a3).0;
    assert(parse_ident(a3).1 == field);
    assert(b1.tokens =~= t.skip(3));
    let b2 = expect(b1, TokenKindView::Colon);
    assert(b2.tokens =~= t.skip(4));
    let c1 = parse_ident(b2).0;
    assert(parse_ident(b2).1 == name);
    assert(c1.tokens =~= t.skip(5));
    assert(primitive_of(name) is None);
    assert(!is_defined(c1, name));
    let b3 = ParseState { pending: add_pending(c1.pending, name), ..c1 };
    let ty = TyKindView::UserDefined(name);
    assert(parse_named_type(b2) == (b3, ty));
    assert(parse_inner_type(b2) == (b3, ty));
    assert(parse_type(b2) == (b3, ty));
    let b4 = with_error(b3, ParseErrorView::RecursiveType(name));
    assert(parse_fields(b4, name, none) == (b4, none));
    assert(parse_fields(a3, name, none) == (b4, none)) by {
        reveal_with_fuel(parse_fields, 2);
    }
    let a5 = expect(b4, TokenKindView::BraceRight);
    assert(a5.tokens =~= t.skip(6));
    assert(a5.errors == b4.errors);
    lemma_contains_index_of(struct_names(s.structs), name);
    lemma_add_pending(s.pending, name);
    lemma_remove_pending(add_pending(s.pending, name), name);
    lemma_index_of_found(add_pending(s.pending, name), name);
    lemma_contains_index_of(add_pending(s.pending, name), name);
    lemma_contains_index_of(s.pending, name);
    lemma_index_of_found(s.pending, name);
    let more = add_pending(s.pending, name);
    let fewer = remove_pending(more, name);
    assert(fewer =~= remove_pending(s.pending, name)) by {
        if !s.pending.contains(name) {
            lemma_index_of(more, name, s.pending.len() as int);
        }
    }
    assert(!fewer.contains(name)) by {
        if fewer.contains(name) {
            let k = choose|k: int| 0 <= k < fewer.len() && fewer[k] == name;
            let i = index_of(more, name) as int;
            if k < i {
                assert(more[k] == name);
            } else {
                assert(more[k + 1] == name);
            }
        }
    }
}

/// The fields that a struct declaration parses to, from behind its
/// keyword.
pub open spec fn declared_fields(s: ParseState) -> Seq<StructFieldView> {
    let (s1, name) = parse_ident(s);
    parse_fields(expect(check_name(s1, name), TokenKindView::BraceLeft), name, Seq::empty()).1
}

/// A struct that is declared again: where the name behind the keyword is
/// the name of a struct already, the first new error is
/// `RedefinedType(name)`, the body is parsed all the same, and the later
/// declaration takes the place of the earlier one; every other struct and
/// every enum stays as it is, and so does the list of names.
pub proof fn lemma_redefinition_keeps_the_later(s: ParseState, name: Seq<char>)
    requires
        s.tokens.len() > 0,
        s.tokens[0].kind == TokenKindView::Identifier(name),
        !reserved_name(name),
        struct_names(s.structs).contains(name),
    ensures
        index_of(struct_names(s.structs), name) < s.structs.len(),
        parse_struct(s).structs == s.structs.update(
            index_of(struct_names(s.structs), name) as int,
            StructDefinitionView { name, fields: declared_fields(s) },
        ),
        struct_names(parse_struct(s).structs) == struct_names(s.structs),
        parse_struct(s).enums == s.enums,
        parse_struct(s).errors.len() > s.errors.len(),
        parse_struct(s).errors.take(s.errors.len() as int) == s.errors,
        parse_struct(s).errors[s.errors.len() as int] == ParseErrorView::RedefinedType(name),
{
    let s1 = parse_ident(s).0;
    let s2 = check_name(s1, name);
    let s3 = expect(s2, TokenKindView::BraceLeft);
    let (s4, fields) = parse_fields(s3, name, Seq::empty());
    let s5 = expect(s4, TokenKindView::BraceRight);
    assert(is_defined(s1, name));
    assert(s2 == with_error(s1, ParseErrorView::RedefinedType(name)));
    lemma_parse_ident_grown(s2);
    assert(fields_kept(s3, name, Seq::empty()));
    lemma_parse_fields_kept(s3, name, Seq::empty());
    lemma_parse_ident_grown(s4);
    lemma_grown_twice(s2, s3, s4);
    lemma_grown_twice(s2, s4, s5);
    assert(s5.errors.take(s2.errors.len() as int)[s.errors.len() as int]
        == s5.errors[s.errors.len() as int]);
    assert(s5.errors.take(s.errors.len() as int) =~= s.errors) by {
        assert forall|i: int| 0 <= i < s.errors.len() implies s5.errors[i] == s.errors[i] by {
            assert(s5.errors.take(s2.errors.len() as int)[i] == s5.errors[i]);
        }
    }
    let names = struct_names(s.structs);
    lemma_contains_index_of(names, name);
    lemma_index_of_found(names, name);
    lemma_put_struct_names(s.structs, StructDefinitionView { name, fields });
}

/// A struct that is declared again with one field of a primitive type:
/// where the tokens behind the keyword spell `name { field: type }`, the
/// one new error is `RedefinedType(name)` and the struct of that name has
/// that field and no other.
pub proof fn lemma_redefinition_with_one_field(
    s: ParseState,
    name: Seq<char>,
    field: Seq<char>,
    primitive: Seq<char>,
)
    requires
        s.tokens.len() >= 6,
        s.tokens[0].kind == TokenKindView::Identifier(name),
        s.tokens[1].kind is BraceLeft,
        s.tokens[2].kind == TokenKindView::Identifier(field),
        s.tokens[3].kind is Colon,
        s.tokens[4].kind == TokenKindView::Identifier(primitive),
        s.tokens[5].kind is BraceRight,
        primitive_of(primitive) is Some,
        !reserved_name(name),
        struct_names(s.structs).contains(name),
    ensures
        parse_struct(s).errors == s.errors.push(ParseErrorView::RedefinedType(name)),
        parse_struct(s).structs == s.structs.update(
            index_of(struct_names(s.structs), name) as int,
            StructDefinitionView {
                name,
                fields: seq![
                    StructFieldView {
                        datatype: TyKindView::Primitive(primitive_of(primitive)->Some_0),
                        name: field,
                    },
                ],
            },
        ),
        parse_struct(s).enums == s.enums,
{
    let t = s.tokens;
    let none = Seq::<StructFieldView>::empty();
    let a1 = parse_ident(s).0;
    assert(a1.tokens =~= t.skip(1));
    assert(is_defined(a1, name));
    let a2 = check_name(a1, name);
    assert(a2 == with_error(a1, ParseErrorView::RedefinedType(name)));
    let a3 = expect(a2, TokenKindView::BraceLeft);
    assert(a3.tokens =~= t.skip(2));
    let b1 = parse_ident(a3).0;
    assert(parse_ident(a3).1 == field);
    assert(b1.tokens =~= t.skip(3));
    let b2 = expect(b1, TokenKindView::Colon);
    assert(b2.tokens =~= t.skip(4));
    let c1 = parse_ident(b2).0;
    assert(parse_ident(b2).1 == primitive);
    assert(c1.tokens =~= t.skip(5));
    let ty = TyKindView::Primitive(primitive_of(primitive)->Some_0);
    assert(parse_named_type(b2) == (c1, ty));
    assert(parse_inner_type(b2) == (c1, ty));
    assert(parse_type(b2) == (c1, ty));
    let one = none.push(StructFieldView { datatype: ty, name: field });
    assert(one =~= seq![StructFieldView { datatype: ty, name: field }]);
    assert(parse_fields(a3, name, none) == (c1, one));
    let a5 = expect(c1, TokenKindView::BraceRight);
    assert(a5.errors == a2.errors);
    lemma_redefinition_keeps_the_later(s, name);
}

/// A variant as it is written: its name, and its value if it is given
/// one, which here is an integer.
pub struct WrittenVariant {
    pub name: Seq<char>,
    pub value: Option<i32>,
}

/// Whether tokens spell the variants, with a comma between two of them and
/// the closing brace behind the last.
pub open spec fn spells_variants(tokens: Seq<TokenView>, variants: Seq<WrittenVariant>) -> bool
    decreases variants.len(),
{
    if variants.len() == 0 {
        false
    } else {
        let v = variants[0];
        let width: int = if v.value is Some {
            3
        } else {
            1
        };
        &&& tokens.len() > width
        &&& tokens[0].kind == TokenKindView::Identifier(v.name)
        &&& v.value matches Some(n) ==> tokens[1].kind is Equal && tokens[2].kind
            == TokenKindView::IntLiteral(n)
        &&& if variants.len() == 1 {
            tokens[width].kind is BraceRight
        } else {
            tokens[width].kind is Comma && spells_variants(
                tokens.skip(width + 1),
                variants.drop_first(),
            )
        }
    }
}

/// The number of tokens that spell the variants, the closing brace not
/// counted.
pub open spec fn variants_width(variants: Seq<WrittenVariant>) -> int
    decreases variants.len(),
{
    if variants.len() == 0 {
        0
    } else {
        let width: int = if variants[0].value is Some {
            3
        } else {
            1
        };
        if variants.len() == 1 {
            width
        } else {
            width + 1 + variants_width(variants.drop_first())
        }
    }
}

/// The variants with their values: a variant takes the value it is given,
/// or else the value of the counter, and the counter goes on from the
/// value that was taken, plus one.
pub open spec fn counted(variants: Seq<WrittenVariant>, counter: i32) -> Seq<EnumVariantView>
    decreases variants.len(),
{
    if variants.len() == 0 {
        Seq::empty()
    } else {
        let value = match variants[0].value {
            Some(n) => n,
            None => counter,
        };
        seq![EnumVariantView { name: variants[0].name, value: EnumVariantValueView::Int(value) }]
            + counted(variants.drop_first(), value.wrapping_add(1))
    }
}

/// Enum values go by the counter: where the tokens spell variants of
/// integers, parsing them adds no error and gives each variant the value
/// it is written with, or else one more than the value before it, the
/// first starting from the counter.
pub proof fn lemma_variants_are_counted(
    s: ParseState,
    p: EnumProgress,
    seen: Seq<EnumVariantView>,
    variants: Seq<WrittenVariant>,
)
    requires
        spells_variants(s.tokens, variants),
        p.is_int,
    ensures
        parse_variants(s, p, seen).1 == seen + counted(variants, p.next_value),
        parse_variants(s, p, seen).0.tokens == s.tokens.skip(variants_width(variants)),
        parse_variants(s, p, seen).0.errors == s.errors,
        parse_variants(s, p, seen).0.structs == s.structs,
        parse_variants(s, p, seen).0.enums == s.enums,
        parse_variants(s, p, seen).0.pending == s.pending,
        parse_variants(s, p, seen).0.end == s.end,
    decreases variants.len(),
{
    let t = s.tokens;
    let v = variants[0];
    let width: int = if v.value is Some {
        3
    } else {
        1
    };
    let s1 = parse_ident(s).0;
    assert(parse_ident(s).1 == v.name);
    assert(s1.tokens =~= t.skip(1));
    let (s2, settled, value) = parse_variant_value(s1, p);
    let taken = match v.value {
        Some(n) => n,
        None => p.next_value,
    };
    if v.value is Some {
        assert(lookahead_is(s1, TokenKindView::Equal));
        let e1 = consume(s1);
        assert(e1.tokens =~= t.skip(2));
        assert(consumed_kind(e1) == TokenKindView::IntLiteral(taken));
        assert(consume(e1).tokens =~= t.skip(3));
    } else {
        assert(!lookahead_is(s1, TokenKindView::Equal));
    }
    assert(s2.tokens =~= t.skip(width));
    assert(value == EnumVariantValueView::Int(taken));
    assert(settled.is_int && settled.next_value == taken.wrapping_add(1));
    assert(s2.errors == s.errors);
    let more = seen.push(EnumVariantView { name: v.name, value });
    if variants.len() == 1 {
        assert(counted(variants.drop_first(), taken.wrapping_add(1)) =~= Seq::empty());
        assert(more =~= seen + counted(variants, p.next_value));
    } else {
        let s3 = consume(s2);
        assert(s3.tokens =~= t.skip(width + 1));
        let next = EnumProgress { decided: true, ..settled };
        lemma_variants_are_counted(s3, next, more, variants.drop_first());
        let rest = counted(variants.drop_first(), taken.wrapping_add(1));
        assert(more + rest =~= seen + counted(variants, p.next_value));
        lemma_variants_width(t.skip(width + 1), variants.drop_first());
        assert(t.skip(width + 1).skip(variants_width(variants.drop_first())) =~= t.skip(
            variants_width(variants),
        ));
    }
}

/// The width of variants is what it takes to write them.
proof fn lemma_variants_width(tokens: Seq<TokenView>, variants: Seq<WrittenVariant>)
    requires
        spells_variants(tokens, variants),
    ensures
        0 < variants_width(variants) < tokens.len(),
        tokens[variants_width(variants)].kind is BraceRight,
    decreases variants.len(),
{
    if variants.len() > 1 {
        let width: int = if variants[0].value is Some {
            3
        } else {
            1
        };
        lemma_variants_width(tokens.skip(width + 1), variants.drop_first());
        assert(tokens.skip(width + 1)[variants_width(variants.drop_first())]
            == tokens[variants_width(variants)]);
    }
}

/// Enum value sequencing: where the tokens behind the keyword spell
/// `name { variants }` with a name that is free to take and variants of
/// integers, the enum is declared without an error, its variants in the
/// order in which they are written, each with the value it is written
/// with, or else one more than the value before it, the first starting at
/// zero.
pub proof fn lemma_enum_values_are_counted(
    s: ParseState,
    name: Seq<char>,
    variants: Seq<WrittenVariant>,
)
    requires
        s.tokens.len() > 2,
        s.tokens[0].kind == TokenKindView::Identifier(name),
        s.tokens[1].kind is BraceLeft,
        spells_variants(s.tokens.skip(2), variants),
        !reserved_name(name),
        !is_defined(s, name),
    ensures
        parse_enum(s).errors == s.errors,
        parse_enum(s).enums == s.enums.push(
            EnumDefinitionView { name, variants: counted(variants, 0) },
        ),
        parse_enum(s).structs == s.structs,
        parse_enum(s).pending == remove_pending(s.pending, name),
        counted(variants, 0).len() == variants.len(),
{
    let t = s.tokens;
    let a1 = parse_ident(s).0;
    assert(a1.tokens =~= t.skip(1));
    assert(check_name(a1, name) == a1);
    let a3 = expect(a1, TokenKindView::BraceLeft);
    assert(a3.tokens =~= t.skip(2));
    let start = EnumProgress { next_value: 0, is_int: true, decided: false };
    lemma_variants_are_counted(a3, start, Seq::empty(), variants);
    lemma_variants_width(a3.tokens, variants);
    let (a4, parsed) = parse_variants(a3, start, Seq::empty());
    assert(parsed =~= counted(variants, 0));
    assert(consumed_kind(a4) is BraceRight);
    let a5 = expect(a4, TokenKindView::BraceRight);
    assert(a5.errors == s.errors);
    lemma_contains_index_of(enum_names(s.enums), name);
    lemma_counted_len(variants, 0);
}

/// Every variant that is written is counted.
proof fn lemma_counted_len(variants: Seq<WrittenVariant>, counter: i32)
    ensures
        counted(variants, counter).len() == variants.len(),
    decreases variants.len(),
{
    if variants.len() > 0 {
        let value = match variants[0].value {
            Some(n) => n,
            None => counter,
        };
        lemma_counted_len(variants.drop_first(), value.wrapping_add(1));
    }
}

} // verus!
