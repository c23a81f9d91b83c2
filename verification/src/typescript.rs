//! The emitter: the table of types as TypeScript source.

use vstd::prelude::*;
use vstd::string::StringExecFns;
use std::path::Path;
use dprint_plugin_typescript::configuration::{ConfigurationBuilder, QuoteStyle};
use dprint_plugin_typescript::{format_text, FormatTextOptions};
use crate::helpers::{key_required, key_required_spec};
use crate::map::TextMap;
use crate::order::{sort_by_lowercase, sorted_by_lowercase};
use crate::plain::{escape_comment, escaped, is_safe_table, safe_table};
use crate::schema::{
    fields_model, lemma_sub_type_model, opt_text, Element, ElementModel, ElementSchema,
    FieldModel, FieldsModel,
};
use crate::text::{join, join_spec, starts_with, text_eq, texts, Text};
use crate::types::table_model;

verus! {

/// How the source is written.
#[derive(Clone, Debug, PartialEq, Eq)]
pub struct WriterConfig {
    /// Whether references are written the FHIR way.
    pub fhir: bool,
    /// The path of the file that the source is for.
    pub output: String,
    /// Whether a union of more than `max_values` literals is written as
    /// `string`.
    pub collapse_values: bool,
    pub max_values: usize,
}

/// The width to which the source is formatted.
pub const LINE_WIDTH: u32 = 120;

/// Declares `dprint_plugin_typescript::configuration::QuoteStyle`, the
/// formatter's choice between single and double quotes, with its four
/// variants.
#[verifier::external_type_specification]
pub struct ExQuoteStyle(QuoteStyle);

/// What the TypeScript formatter makes of `source` for the file at `path`,
/// with lines of at most `line_width` characters and the given choice of
/// quotes: the formatted text, or none where the formatter leaves the
/// source as it is or cannot read it.
pub uninterp spec fn formatted_source(
    path: Seq<char>,
    source: Seq<char>,
    line_width: u32,
    quotes: QuoteStyle,
) -> Option<Seq<char>>;

/// Runs `dprint_plugin_typescript::format_text` on `source` for the file at
/// `path`, with the given line width and choice of quotes. Trusted: the
/// formatter's answer depends on these alone; it is named by
/// [`formatted_source`], an error counting as no answer. The formatter
/// stops the program on statements that it does not know; a source that is
/// [`formattable`] holds none, being declarations of types whose names and
/// literals are plain.
#[verifier::external_body]
fn format_source(path: &str, source: &str, line_width: u32, quotes: QuoteStyle) -> (r: Option<
    String,
>)
    requires
        formattable(source@),
    ensures
        opt_text(r) == formatted_source(path@, source@, line_width, quotes),
{
    let config = ConfigurationBuilder::new().line_width(line_width).quote_style(quotes).build();
    let options = FormatTextOptions {
        path: Path::new(path),
        extension: None,
        text: source.to_string(),
        config: &config,
        external_formatter: None,
    };
    match format_text(options) {
        Ok(done) => done,
        Err(_) => None,
    }
}

/// The untyped type with its wrapping.
pub open spec fn any_type(is_array: bool, is_reference: bool) -> Text {
    if is_array {
        if is_reference {
            "Array<Reference>"@
        } else {
            "Array<any>"@
        }
    } else if is_reference {
        "Reference"@
    } else {
        "any"@
    }
}

/// A scalar type with its wrapping: an array of references to it, an array
/// of it, a reference to it, or the type itself. The generic reference
/// takes no parameter.
pub open spec fn plain_type_text(plain: Text, is_array: bool, is_reference: bool) -> Text {
    if is_array {
        if is_reference {
            if plain != "Reference"@ {
                "Array<Reference<'"@ + plain + "'>>"@
            } else {
                "Array<Reference>"@
            }
        } else {
            "Array<"@ + plain + ">"@
        }
    } else if is_reference {
        if plain != "Reference"@ {
            "Reference<'"@ + plain + "'>"@
        } else {
            "Reference"@
        }
    } else {
        plain
    }
}

/// A literal as a string constant.
pub open spec fn quoted(v: Text) -> Text {
    "\""@ + v + "\""@
}

/// Each literal as a string constant.
pub open spec fn quoted_all(vs: Seq<Text>) -> Seq<Text> {
    Seq::new(vs.len(), |i: int| quoted(vs[i]))
}

/// A union of literals with its wrapping. A union of more than `max`
/// literals is `string` where `collapse` says so, unless it stands for the
/// targets of a reference.
pub open spec fn values_text(
    values: Seq<Text>,
    is_array: bool,
    is_reference: bool,
    collapse: bool,
    max: int,
) -> Text {
    let union = join_spec(quoted_all(values), "|"@);
    if is_array {
        if is_reference {
            "Array<Reference<"@ + union + ">>"@
        } else if collapse && values.len() > max {
            "Array<string>"@
        } else {
            "Array<"@ + union + ">"@
        }
    } else if is_reference {
        "Reference<"@ + union + ">"@
    } else if collapse && values.len() > max {
        "string"@
    } else {
        union
    }
}

/// The type of a field that is untyped.
pub open spec fn build_any_spec(f: FieldModel) -> Text {
    any_type(f.is_array, f.is_reference)
}

/// The type of a field by its scalar type; untyped where it has none.
pub open spec fn build_plain_type_spec(f: FieldModel) -> Text {
    match f.plain_type {
        Some(p) => plain_type_text(p, f.is_array, f.is_reference),
        None => any_type(f.is_array, f.is_reference),
    }
}

/// The type of a field by its literals; untyped where it has none.
pub open spec fn build_values_spec(f: FieldModel, collapse: bool, max: int) -> Text {
    match f.values {
        Some(v) => values_text(v, f.is_array, f.is_reference, collapse, max),
        None => any_type(f.is_array, f.is_reference),
    }
}

/// A description as a comment; the description is escaped so that the
/// comment does not end in it.
pub open spec fn comment(d: Text) -> Text {
    "/* "@ + escape_comment(d) + " */"@
}

/// The comment of a description, if there is one.
pub open spec fn comment_lines(description: Option<Text>) -> Seq<Text> {
    match description {
        Some(d) => seq![comment(d)],
        None => Seq::empty(),
    }
}

/// What stands before the scalar type of a field that inherits: the
/// inherited names in order, joined as an intersection.
pub open spec fn mixin_prefix(extends: Option<Seq<Text>>) -> Text {
    match extends {
        Some(e) => if e.len() == 0 {
            Seq::empty()
        } else {
            join_spec(sorted_by_lowercase(e), " & "@) + " & { "@
        },
        None => Seq::empty(),
    }
}

/// The lines of one field. The catch-all key is an index signature. A field
/// with neither scalar type nor nested fields is the intersection of what it
/// inherits, else its literals, else untyped. A field with a scalar type is
/// that type. A field with nested fields is an inline object.
pub open spec fn field_lines(key: Text, f: FieldModel, collapse: bool, max: int) -> Seq<Text>
    decreases f,
{
    let head = comment_lines(f.description);
    let k = key_required_spec(key, f.require);
    if key == "__"@ {
        head.push("[key: string]: any;"@)
    } else if f.plain_type is None && f.sub_type is None {
        match f.extends {
            Some(e) => if e.len() > 0 {
                head.push(k + ": "@ + join_spec(e, " & "@) + ";"@)
            } else {
                head.push(k + ": any;"@)
            },
            None => if f.values is Some {
                head.push(k + ": "@ + build_values_spec(f, collapse, max) + ";"@)
            } else {
                head.push(k + ": "@ + build_any_spec(f) + ";"@)
            },
        }
    } else if f.plain_type is Some {
        head.push(k + ": "@ + mixin_prefix(f.extends) + " "@ + build_plain_type_spec(f) + ";"@)
    } else {
        head.push(k + ": {"@) + nested_lines(f.sub_type->0, collapse, max) + seq![
            if f.is_array {
                "}[];"@
            } else {
                "};"@
            },
        ]
    }
}

/// The lines of a map of fields: those of its fields, in order.
pub open spec fn nested_lines(m: FieldsModel, collapse: bool, max: int) -> Seq<Text>
    decreases m,
{
    if m.len() == 0 {
        Seq::empty()
    } else {
        nested_lines(m.drop_last(), collapse, max) + field_lines(
            m.last().0,
            m.last().1,
            collapse,
            max,
        )
    }
}

/// The lines of the type of a remote call: a record with the method as a
/// literal and, where the call has parameters, their fields.
pub open spec fn rpc_lines(name: Text, e: ElementModel, collapse: bool, max: int) -> Seq<Text> {
    let method = match e.rpc_method {
        Some(m) => m,
        None => Seq::empty(),
    };
    let head = seq!["export type "@ + name + " = {"@, "method: "@ + quoted(method) + ";"@];
    match e.schema {
        Some(s) => head.push("params: {"@) + nested_lines(s, collapse, max) + seq![
            "}"@,
            "}\n"@,
        ],
        None => head.push("}\n"@),
    }
}

/// The name under which a type is declared.
pub open spec fn declared_as(key: Text) -> Text {
    if key == "CodeableConcept"@ || key == "Coding"@ {
        key + "<T = code>"@
    } else {
        key
    }
}

/// Whether a name is that of a built-in primitive, which is not declared.
pub open spec fn is_builtin(key: Text) -> bool {
    key == "boolean"@ || key == "string"@
}

/// Whether a type inherits from the generic resource.
pub open spec fn is_resource(e: ElementModel) -> bool {
    match e.extends {
        Some(ext) => exists|i: int| 0 <= i < ext.len() && "Resource"@.is_prefix_of(#[trigger] ext[i]),
        None => false,
    }
}

/// What an interface extends.
pub open spec fn heritage(extends: Option<Seq<Text>>) -> Text {
    match extends {
        Some(e) => "extends "@ + join_spec(sorted_by_lowercase(e), " , "@) + " { "@,
        None => "{ "@,
    }
}

/// The lines of one type. A remote call is a record; a scalar alias is an
/// alias; a type without fields is the union of its literals, else the
/// intersection of what it inherits, else untyped; a type with fields is an
/// interface.
pub open spec fn type_lines(key: Text, e: ElementModel, collapse: bool, max: int) -> Seq<Text> {
    let name = declared_as(key);
    let head = comment_lines(e.description);
    if e.is_rpc {
        head + rpc_lines(name, e, collapse, max)
    } else if e.plain is Some {
        head.push("export type "@ + name + " = "@ + e.plain->0 + ";"@)
    } else if e.schema is None {
        if e.values is Some {
            head.push(
                "export type "@ + name + " = "@ + join_spec(quoted_all(e.values->0), " | "@)
                    + ";"@,
            )
        } else if e.extends is Some && e.extends->0.len() > 0 {
            head.push("export type "@ + name + " = "@ + join_spec(e.extends->0, " & "@) + ";"@)
        } else {
            head.push("export type "@ + name + " = any;"@)
        }
    } else {
        head.push("export interface "@ + name + " "@ + heritage(e.extends)) + nested_lines(
            e.schema->0,
            collapse,
            max,
        ) + seq!["};\n"@]
    }
}

/// The lines of the types of a table, in order; built-in primitives are
/// left out.
pub open spec fn table_lines(t: Seq<(Text, ElementModel)>, collapse: bool, max: int) -> Seq<Text>
    decreases t.len(),
{
    if t.len() == 0 {
        Seq::empty()
    } else {
        let front = table_lines(t.drop_last(), collapse, max);
        if is_builtin(t.last().0) {
            front
        } else {
            front + type_lines(t.last().0, t.last().1, collapse, max)
        }
    }
}

/// The lines of the lookup type: one entry for each declared type that
/// inherits from the generic resource, the type under its own name.
pub open spec fn entity_lines(t: Seq<(Text, ElementModel)>) -> Seq<Text>
    decreases t.len(),
{
    if t.len() == 0 {
        Seq::empty()
    } else {
        let front = entity_lines(t.drop_last());
        if !is_builtin(t.last().0) && is_resource(t.last().1) {
            front.push(declared_as(t.last().0) + ":"@ + declared_as(t.last().0))
        } else {
            front
        }
    }
}

/// The declaration of the reference type.
pub open spec fn reference_declaration(fhir: bool) -> Text {
    if fhir {
        "export type Reference<T extends string> = {\n  reference: `${T}/${string}`;\n  display?: string;\n identifier: Identifier[];\n};\n"@
    } else {
        "export type Reference<T = string> = {\n  id: string;\n  resourceType: T;\n  display?: string;\n identifier: Identifier[];\n};\n"@
    }
}

/// The lines of the whole source: the reference type, the types of the
/// table, and the lookup type with its helpers.
pub open spec fn source_lines(t: Seq<(Text, ElementModel)>, fhir: bool, collapse: bool, max: int)
    -> Seq<Text> {
    seq![reference_declaration(fhir)] + table_lines(t, collapse, max) + seq![
        "export type EntityList = {"@,
    ] + entity_lines(t) + seq![
        "};\n"@,
        "export type EntityType = keyof EntityList;"@,
        "export type Entity<T extends EntityType | void = void> = T extends EntityType ? EntityList[T] : EntityList;"@,
    ]
}

/// The source before it is formatted.
pub open spec fn source_text(t: Seq<(Text, ElementModel)>, fhir: bool, collapse: bool, max: int)
    -> Text {
    join_spec(source_lines(t, fhir, collapse, max), "\n"@)
}

/// The source as it is written out: as the formatter gave it, or as it was
/// where the formatter gave nothing.
pub open spec fn finished(raw: Text, formatted: Option<Text>) -> Text {
    match formatted {
        Some(f) => f,
        None => raw,
    }
}

/// Adds a line.
pub fn push_line(result: &mut Vec<String>, line: String)
    ensures
        texts(final(result)@) == texts(old(result)@).push(line@),
{
    let ghost before = result@;
    result.push(line);
    assert(texts(result@) =~= texts(before).push(line@));
}

/// Adds the comment of a description, if there is one.
pub fn push_comment(result: &mut Vec<String>, description: &Option<String>)
    ensures
        texts(final(result)@) == texts(old(result)@) + comment_lines(opt_text(*description)),
{
    match description {
        Some(d) => {
            let mut line = String::from_str("/* ");
            let inner = escaped(d.as_str());
            line.append(inner.as_str());
            line.append(" */");
            let ghost before = result@;
            push_line(result, line);
            assert(texts(result@) =~= texts(before) + seq![comment(d@)]);
        },
        None => {
            assert(texts(result@) =~= texts(result@) + Seq::<Text>::empty());
        },
    }
}

/// The type of a field that is untyped.
pub fn build_any(value: &ElementSchema) -> (r: String)
    ensures
        r@ == build_any_spec(value@),
{
    proof {
        lemma_sub_type_model(*value);
    }
    if value.is_array {
        if value.is_reference {
            String::from_str("Array<Reference>")
        } else {
            String::from_str("Array<any>")
        }
    } else if value.is_reference {
        String::from_str("Reference")
    } else {
        String::from_str("any")
    }
}

/// The type of a field by its scalar type.
pub fn build_plain_type(value: &ElementSchema) -> (r: String)
    ensures
        r@ == build_plain_type_spec(value@),
{
    proof {
        lemma_sub_type_model(*value);
    }
    let plain = match &value.plain_type {
        Some(p) => p,
        None => {
            return build_any(value);
        },
    };
    let generic = text_eq(plain.as_str(), "Reference");
    if value.is_array {
        if value.is_reference {
            if !generic {
                let mut out = String::from_str("Array<Reference<'");
                out.append(plain.as_str());
                out.append("'>>");
                out
            } else {
                String::from_str("Array<Reference>")
            }
        } else {
            let mut out = String::from_str("Array<");
            out.append(plain.as_str());
            out.append(">");
            out
        }
    } else if value.is_reference {
        if !generic {
            let mut out = String::from_str("Reference<'");
            out.append(plain.as_str());
            out.append("'>");
            out
        } else {
            String::from_str("Reference")
        }
    } else {
        plain.clone()
    }
}

/// The literals as string constants.
pub fn quote_all(values: &Vec<String>) -> (r: Vec<String>)
    ensures
        texts(r@) == quoted_all(texts(values@)),
{
    let mut out: Vec<String> = Vec::new();
    let mut i: usize = 0;
    while i < values.len()
        invariant
            i <= values.len(),
            out@.len() == i,
            forall|j: int| 0 <= j < i ==> out@[j]@ == quoted(values@[j]@),
        decreases values.len() - i,
    {
        let mut q = String::from_str("\"");
        q.append(values[i].as_str());
        q.append("\"");
        out.push(q);
        i = i + 1;
    }
    assert(texts(out@) =~= quoted_all(texts(values@)));
    out
}

/// The type of a field by its literals.
pub fn build_values(value: &ElementSchema, config: &WriterConfig) -> (r: String)
    ensures
        r@ == build_values_spec(value@, config.collapse_values, config.max_values as int),
{
    proof {
        lemma_sub_type_model(*value);
    }
    let values = match &value.values {
        Some(v) => v,
        None => {
            return build_any(value);
        },
    };
    let constants = quote_all(values);
    let union = join(&constants, "|");
    let many = config.collapse_values && values.len() > config.max_values;
    if value.is_array {
        if value.is_reference {
            let mut out = String::from_str("Array<Reference<");
            out.append(union.as_str());
            out.append(">>");
            out
        } else if many {
            String::from_str("Array<string>")
        } else {
            let mut out = String::from_str("Array<");
            out.append(union.as_str());
            out.append(">");
            out
        }
    } else if value.is_reference {
        let mut out = String::from_str("Reference<");
        out.append(union.as_str());
        out.append(">");
        out
    } else if many {
        String::from_str("string")
    } else {
        union
    }
}

/// What stands before the scalar type of a field that inherits.
pub fn build_mixin_prefix(extends: &Option<Vec<String>>) -> (r: String)
    ensures
        r@ == mixin_prefix(crate::schema::opt_texts(*extends)),
{
    match extends {
        Some(e) => if e.len() == 0 {
            String::new()
        } else {
            let sorted = sort_by_lowercase(e);
            let mut out = join(&sorted, " & ");
            out.append(" & { ");
            out
        },
        None => String::new(),
    }
}

/// The line of a field of one line: key, then `: `, then `body`, then `;`.
pub fn field_line(key: String, body: &str) -> (r: String)
    ensures
        r@ == key@ + ": "@ + body@ + ";"@,
{
    let mut out = key;
    out.append(": ");
    out.append(body);
    out.append(";");
    out
}

/// Writes the lines of the field `value` under `key`.
pub fn write_field(key: &str, value: &ElementSchema, result: &mut Vec<String>, config: &WriterConfig)
    ensures
        texts(final(result)@) == texts(old(result)@) + field_lines(
            key@,
            value@,
            config.collapse_values,
            config.max_values as int,
        ),
    decreases value, 0int,
{
    proof {
        lemma_sub_type_model(*value);
    }
    let ghost start = texts(result@);
    let ghost head = comment_lines(opt_text(value.description));
    let ghost collapse = config.collapse_values;
    let ghost max = config.max_values as int;
    push_comment(result, &value.description);
    if text_eq(key, "__") {
        push_line(result, String::from_str("[key: string]: any;"));
        assert(texts(result@) =~= start + head.push("[key: string]: any;"@));
        return ;
    }
    let k = key_required(String::from_str(key), value.require);
    if value.plain_type.is_none() && value.sub_type.is_none() {
        let line = match &value.extends {
            Some(e) => if e.len() > 0 {
                let body = join(e, " & ");
                field_line(k, body.as_str())
            } else {
                let mut out = k;
                out.append(": any;");
                out
            },
            None => if value.values.is_some() {
                let body = build_values(value, config);
                field_line(k, body.as_str())
            } else {
                let body = build_any(value);
                field_line(k, body.as_str())
            },
        };
        push_line(result, line);
        assert(texts(result@) =~= start + head.push(line@));
    } else if value.plain_type.is_some() {
        let mut line = k;
        line.append(": ");
        let prefix = build_mixin_prefix(&value.extends);
        line.append(prefix.as_str());
        line.append(" ");
        let body = build_plain_type(value);
        line.append(body.as_str());
        line.append(";");
        push_line(result, line);
        assert(texts(result@) =~= start + head.push(line@));
    } else {
        let mut open = k;
        open.append(": {");
        push_line(result, open);
        let ghost opened = texts(result@);
        match &value.sub_type {
            Some(sub) => {
                typescript_write_nested_type(sub, result, config);
            },
            None => {},
        }
        let ghost inner = nested_lines(value@.sub_type->0, collapse, max);
        let close = if value.is_array {
            String::from_str("}[];")
        } else {
            String::from_str("};")
        };
        push_line(result, close);
        assert(texts(result@) =~= start + (head.push(open@) + inner + seq![close@]));
    }
}

/// Writes the lines of a map of fields.
pub fn typescript_write_nested_type(
    map: &TextMap<ElementSchema>,
    result: &mut Vec<String>,
    input_config: &WriterConfig,
)
    ensures
        texts(final(result)@) == texts(old(result)@) + nested_lines(
            fields_model(*map),
            input_config.collapse_values,
            input_config.max_values as int,
        ),
    decreases map, 1int,
{
    let ghost start = texts(result@);
    let ghost m = fields_model(*map);
    let ghost collapse = input_config.collapse_values;
    let ghost max = input_config.max_values as int;
    let mut i: usize = 0;
    assert(m.take(0) =~= Seq::<(Text, FieldModel)>::empty());
    assert(texts(result@) =~= start + nested_lines(m.take(0), collapse, max));
    while i < map.entries.len()
        invariant
            i <= map.entries@.len(),
            m == fields_model(*map),
            collapse == input_config.collapse_values,
            max == input_config.max_values as int,
            texts(result@) == start + nested_lines(m.take(i as int), collapse, max),
        decreases map.entries@.len() - i,
    {
        let ghost upto = m.take(i + 1);
        assert(upto.drop_last() =~= m.take(i as int));
        assert(upto.last() == m[i as int]);
        let ghost before = texts(result@);
        write_field(map.entries[i].0.as_str(), &map.entries[i].1, result, input_config);
        assert(texts(result@) =~= start + nested_lines(upto, collapse, max));
        i = i + 1;
    }
    assert(m.take(i as int) =~= m);
}

/// Writes the lines of the type of a remote call.
pub fn write_rpc(
    name: String,
    definition: &Element,
    result: &mut Vec<String>,
    input_config: &WriterConfig,
)
    ensures
        texts(final(result)@) == texts(old(result)@) + rpc_lines(
            name@,
            definition@,
            input_config.collapse_values,
            input_config.max_values as int,
        ),
{
    let ghost start = texts(result@);
    let ghost collapse = input_config.collapse_values;
    let ghost max = input_config.max_values as int;
    let mut first = String::from_str("export type ");
    first.append(name.as_str());
    first.append(" = {");
    push_line(result, first);
    let mut second = String::from_str("method: ");
    let mut method = String::from_str("\"");
    match &definition.rpc_method {
        Some(m) => {
            method.append(m.as_str());
        },
        None => {
            assert(method@ + Seq::<char>::empty() =~= method@);
        },
    }
    method.append("\"");
    second.append(method.as_str());
    second.append(";");
    push_line(result, second);
    let ghost head = seq![first@, second@];
    assert(texts(result@) =~= start + head);
    match &definition.schema {
        Some(s) => {
            push_line(result, String::from_str("params: {"));
            typescript_write_nested_type(s, result, input_config);
            push_line(result, String::from_str("}"));
            push_line(result, String::from_str("}\n"));
            assert(texts(result@) =~= start + (head.push("params: {"@) + nested_lines(
                fields_model(*s),
                collapse,
                max,
            ) + seq!["}"@, "}\n"@]));
        },
        None => {
            push_line(result, String::from_str("}\n"));
            assert(texts(result@) =~= start + head.push("}\n"@));
        },
    }
}

/// The name under which the type `key` is declared.
pub fn declared_name(key: &str) -> (r: String)
    ensures
        r@ == declared_as(key@),
{
    if text_eq(key, "CodeableConcept") || text_eq(key, "Coding") {
        let mut out = String::from_str(key);
        out.append("<T = code>");
        out
    } else {
        String::from_str(key)
    }
}

/// Whether `key` names a built-in primitive.
pub fn names_builtin(key: &str) -> (r: bool)
    ensures
        r == is_builtin(key@),
{
    text_eq(key, "boolean") || text_eq(key, "string")
}

/// Whether a type inherits from the generic resource.
pub fn inherits_resource(value: &Element) -> (r: bool)
    ensures
        r == is_resource(value@),
{
    match &value.extends {
        Some(ext) => {
            let mut i: usize = 0;
            while i < ext.len()
                invariant
                    i <= ext.len(),
                    value.extends == Some(*ext),
                    forall|j: int|
                        0 <= j < i ==> !"Resource"@.is_prefix_of(#[trigger] texts(ext@)[j]),
                decreases ext.len() - i,
            {
                if starts_with(ext[i].as_str(), "Resource") {
                    proof {
                        let e = value@.extends->0;
                        assert(e == texts(ext@));
                        assert(0 <= i < e.len() && "Resource"@.is_prefix_of(e[i as int]));
                    }
                    return true;
                }
                i = i + 1;
            }
            false
        },
        None => false,
    }
}

/// What an interface extends.
pub fn build_heritage(extends: &Option<Vec<String>>) -> (r: String)
    ensures
        r@ == heritage(crate::schema::opt_texts(*extends)),
{
    match extends {
        Some(e) => {
            let sorted = sort_by_lowercase(e);
            let mut out = String::from_str("extends ");
            let names = join(&sorted, " , ");
            out.append(names.as_str());
            out.append(" { ");
            out
        },
        None => String::from_str("{ "),
    }
}

/// An alias: `export type`, the name, ` = `, the body, `;`.
pub fn alias_line(name: &str, body: &str) -> (r: String)
    ensures
        r@ == "export type "@ + name@ + " = "@ + body@ + ";"@,
{
    let mut out = String::from_str("export type ");
    out.append(name);
    out.append(" = ");
    out.append(body);
    out.append(";");
    out
}

/// Writes the lines of the type `value` under `key`.
pub fn write_type(key: &str, value: &Element, result: &mut Vec<String>, config: &WriterConfig)
    ensures
        texts(final(result)@) == texts(old(result)@) + type_lines(
            key@,
            value@,
            config.collapse_values,
            config.max_values as int,
        ),
{
    let ghost start = texts(result@);
    let ghost head = comment_lines(opt_text(value.description));
    let ghost collapse = config.collapse_values;
    let ghost max = config.max_values as int;
    let name = declared_name(key);
    push_comment(result, &value.description);
    if value.is_rpc {
        write_rpc(name, value, result, config);
        assert(texts(result@) =~= start + (head + rpc_lines(name@, value@, collapse, max)));
        return ;
    }
    match &value.plain {
        Some(p) => {
            let line = alias_line(name.as_str(), p.as_str());
            push_line(result, line);
            assert(texts(result@) =~= start + head.push(line@));
            return ;
        },
        None => {},
    }
    match &value.schema {
        None => {
            let line = match &value.values {
                Some(v) => {
                    let constants = quote_all(v);
                    let union = join(&constants, " | ");
                    alias_line(name.as_str(), union.as_str())
                },
                None => {
                    let names = match &value.extends {
                        Some(ext) => if ext.len() > 0 {
                            Some(join(ext, " & "))
                        } else {
                            None
                        },
                        None => None,
                    };
                    match names {
                        Some(n) => alias_line(name.as_str(), n.as_str()),
                        None => {
                            let mut out = String::from_str("export type ");
                            out.append(name.as_str());
                            out.append(" = any;");
                            out
                        },
                    }
                },
            };
            push_line(result, line);
            assert(texts(result@) =~= start + head.push(line@));
        },
        Some(s) => {
            let mut line = String::from_str("export interface ");
            line.append(name.as_str());
            line.append(" ");
            let h = build_heritage(&value.extends);
            line.append(h.as_str());
            push_line(result, line);
            typescript_write_nested_type(s, result, config);
            push_line(result, String::from_str("};\n"));
            assert(texts(result@) =~= start + (head.push(line@) + nested_lines(
                fields_model(*s),
                collapse,
                max,
            ) + seq!["};\n"@]));
        },
    }
}

/// The declaration of the reference type.
pub fn reference_type(fhir: bool) -> (r: String)
    ensures
        r@ == reference_declaration(fhir),
{
    if fhir {
        String::from_str(
            "export type Reference<T extends string> = {\n  reference: `${T}/${string}`;\n  display?: string;\n identifier: Identifier[];\n};\n",
        )
    } else {
        String::from_str(
            "export type Reference<T = string> = {\n  id: string;\n  resourceType: T;\n  display?: string;\n identifier: Identifier[];\n};\n",
        )
    }
}

/// The source of the table of types, before it is formatted.
pub fn render_types(types: &TextMap<Element>, input_config: &WriterConfig) -> (r: String)
    ensures
        r@ == source_text(
            table_model(*types),
            input_config.fhir,
            input_config.collapse_values,
            input_config.max_values as int,
        ),
{
    let ghost t = table_model(*types);
    let ghost collapse = input_config.collapse_values;
    let ghost max = input_config.max_values as int;
    let mut result: Vec<String> = Vec::new();
    let mut resource_map: Vec<String> = Vec::new();
    push_line(&mut result, reference_type(input_config.fhir));
    let ghost first = seq![reference_declaration(input_config.fhir)];
    let mut i: usize = 0;
    assert(t.take(0) =~= Seq::<(Text, ElementModel)>::empty());
    assert(texts(result@) =~= first + table_lines(t.take(0), collapse, max));
    assert(texts(resource_map@) =~= entity_lines(t.take(0)));
    while i < types.entries.len()
        invariant
            i <= types.entries@.len(),
            t == table_model(*types),
            collapse == input_config.collapse_values,
            max == input_config.max_values as int,
            first == seq![reference_declaration(input_config.fhir)],
            texts(result@) == first + table_lines(t.take(i as int), collapse, max),
            texts(resource_map@) == entity_lines(t.take(i as int)),
        decreases types.entries@.len() - i,
    {
        let ghost upto = t.take(i + 1);
        assert(upto.drop_last() =~= t.take(i as int));
        assert(upto.last() == t[i as int]);
        let key = types.entries[i].0.as_str();
        let value = &types.entries[i].1;
        if !names_builtin(key) {
            if inherits_resource(value) {
                let name = declared_name(key);
                let mut entry = name.clone();
                entry.append(":");
                entry.append(name.as_str());
                push_line(&mut resource_map, entry);
            }
            write_type(key, value, &mut result, input_config);
            assert(texts(result@) =~= first + table_lines(upto, collapse, max));
        }
        i = i + 1;
    }
    assert(t.take(i as int) =~= t);
    let ghost body = texts(result@);
    push_line(&mut result, String::from_str("export type EntityList = {"));
    let ghost opened = texts(result@);
    let mut k: usize = 0;
    while k < resource_map.len()
        invariant
            k <= resource_map.len(),
            texts(result@) == opened + texts(resource_map@).take(k as int),
        decreases resource_map.len() - k,
    {
        let ghost before = texts(result@);
        push_line(&mut result, resource_map[k].clone());
        assert(texts(result@) =~= opened + texts(resource_map@).take(k + 1));
        k = k + 1;
    }
    assert(texts(resource_map@).take(k as int) =~= texts(resource_map@));
    push_line(&mut result, String::from_str("};\n"));
    push_line(&mut result, String::from_str("export type EntityType = keyof EntityList;"));
    push_line(
        &mut result,
        String::from_str(
            "export type Entity<T extends EntityType | void = void> = T extends EntityType ? EntityList[T] : EntityList;",
        ),
    );
    assert(texts(result@) =~= source_lines(t, input_config.fhir, collapse, max));
    join(&result, "\n")
}

/// The source as it is written out: `formatted` where the formatter gave
/// something, `raw` otherwise.
pub fn finish_source(raw: String, formatted: Option<String>) -> (r: String)
    ensures
        r@ == finished(raw@, opt_text(formatted)),
{
    match formatted {
        Some(f) => f,
        None => raw,
    }
}

/// Whether a source can be handed to the formatter: it is the source of a
/// table whose names and literals are plain.
pub open spec fn formattable(source: Text) -> bool {
    exists|t: Seq<(Text, ElementModel)>, fhir: bool, collapse: bool, max: int|
        safe_table(t) && source == #[trigger] source_text(t, fhir, collapse, max)
}

/// What is written out for a table: its source, formatted to lines of
/// [`LINE_WIDTH`] characters with single quotes preferred where the names
/// and literals of the table are plain and the formatter gives something.
pub open spec fn written(
    t: Seq<(Text, ElementModel)>,
    path: Text,
    fhir: bool,
    collapse: bool,
    max: int,
) -> Text {
    let raw = source_text(t, fhir, collapse, max);
    if safe_table(t) {
        finished(raw, formatted_source(path, raw, LINE_WIDTH, QuoteStyle::PreferSingle))
    } else {
        raw
    }
}

/// The TypeScript source for the table of types, formatted for the file
/// that `input_config` names where the formatter can read it. A table with
/// a name or a literal that is not plain is written as it is, unformatted.
pub fn write_typescript_types(types: &TextMap<Element>, input_config: &WriterConfig) -> (r:
    String)
    ensures
        r@ == written(
            table_model(*types),
            input_config.output@,
            input_config.fhir,
            input_config.collapse_values,
            input_config.max_values as int,
        ),
{
    let raw = render_types(types, input_config);
    if !is_safe_table(types) {
        return raw;
    }
    assert(formattable(raw@)) by {
        assert(safe_table(table_model(*types)) && raw@ == source_text(
            table_model(*types),
            input_config.fhir,
            input_config.collapse_values,
            input_config.max_values as int,
        ));
    }
    let formatted = format_source(
        input_config.output.as_str(),
        raw.as_str(),
        LINE_WIDTH,
        QuoteStyle::PreferSingle,
    );
    finish_source(raw, formatted)
}

/// An array of references with the two targets `a` and `b` is written as
/// an array of a reference whose parameter is `a` or `b`, however many
/// literals a union may have.
pub proof fn lemma_reference_array(f: FieldModel, a: Text, b: Text, collapse: bool, max: int)
    requires
        f.is_array,
        f.is_reference,
        f.values == Some(seq![a, b]),
    ensures
        build_values_spec(f, collapse, max) == "Array<Reference<"@ + (quoted(a) + "|"@ + quoted(
            b,
        )) + ">>"@,
{
    let q = quoted_all(seq![a, b]);
    assert(q.drop_last() =~= seq![quoted(a)]);
    assert(q.last() == quoted(b));
    assert(join_spec(q.drop_last(), "|"@) == quoted(a));
}

} // verus!
