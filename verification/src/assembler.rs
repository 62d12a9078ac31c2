//! The module assembler: the text of the generated module, which holds the
//! data types, then the stub handlers, then the function that registers every
//! route. The text is valid source; it is not formatted.

use vstd::prelude::*;
use vstd::string::StringExecFns;
use crate::emitter::{schemas_of, structs_of};
use crate::mapper::CodeGenerator;
use crate::model::{OpenApiSpec, OpenApiSpecView};
use crate::routes::routes_of;
use crate::text::chars_of;
use crate::types::{
    FieldDef, FieldDefView, GenerateError, GenerateErrorView, RouteDef, RouteDefView, StructBody,
    StructBodyView, StructDef, StructDefView, TypeExpr, TypeExprView,
};
use crate::views::result_view;

verus! {

/// The texts of `items`, one behind the other.
pub open spec fn joined<T>(items: Seq<T>, text: spec_fn(T) -> Seq<char>) -> Seq<char>
    decreases items.len(),
{
    if items.len() == 0 {
        Seq::empty()
    } else {
        joined(items.drop_last(), text) + text(items.last())
    }
}

impl TypeExprView {
    /// The type as it is written in the generated code.
    pub open spec fn text(self) -> Seq<char>
        decreases self,
    {
        match self {
            TypeExprView::Named(name) => name,
            TypeExprView::Sequence(item) => "Vec<"@ + (*item).text() + ">"@,
            TypeExprView::Untyped => "serde_json::Value"@,
            TypeExprView::Uuid => "uuid::Uuid"@,
            TypeExprView::Text => "String"@,
            TypeExprView::Int32 => "i32"@,
            TypeExprView::Int64 => "i64"@,
            TypeExprView::Float64 => "f64"@,
            TypeExprView::Boolean => "bool"@,
        }
    }
}

impl FieldDefView {
    /// The line that declares the field: public, and wrapped in `Option`
    /// where the field is optional.
    pub open spec fn text(self) -> Seq<char> {
        if self.optional {
            "    pub "@ + self.name + ": Option<"@ + self.ty.text() + ">,\n"@
        } else {
            "    pub "@ + self.name + ": "@ + self.ty.text() + ",\n"@
        }
    }
}

impl StructBodyView {
    /// The lines between the braces of the data type.
    pub open spec fn text(self) -> Seq<char> {
        match self {
            StructBodyView::Record(fields) => joined(fields, |f: FieldDefView| f.text()),
            StructBodyView::Wrapper(ty) => "    value: "@ + ty.text() + ",\n"@,
        }
    }
}

impl StructDefView {
    /// The definition of the data type.
    pub open spec fn text(self) -> Seq<char> {
        "#[derive(Debug, Deserialize, Serialize)]\npub struct "@ + self.name + " {\n"@
            + self.body.text() + "}\n\n"@
    }
}

/// What stands for `c` inside a string literal.
pub open spec fn escaped_char(c: char) -> Seq<char> {
    if c == '\\' {
        seq!['\\', '\\']
    } else if c == '"' {
        seq!['\\', '"']
    } else if c == '\n' {
        seq!['\\', 'n']
    } else if c == '\r' {
        seq!['\\', 'r']
    } else if c == '\t' {
        seq!['\\', 't']
    } else {
        seq![c]
    }
}

/// `raw` as it stands inside a string literal.
pub open spec fn escaped(raw: Seq<char>) -> Seq<char> {
    joined(raw, |c: char| escaped_char(c))
}

impl RouteDefView {
    /// The stub handler of the route.
    pub open spec fn handler_text(self) -> Seq<char> {
        "async fn "@ + self.handler + "() -> &'static str {\n    \"Hello, World!\"\n}\n\n"@
    }

    /// The line that registers the route.
    pub open spec fn registration_text(self) -> Seq<char> {
        "        .route(\""@ + escaped(self.path) + "\", axum::routing::"@ + self.method + "("@
            + self.handler + "))\n"@
    }
}

/// The imports at the head of the generated module.
pub open spec fn head_text() -> Seq<char> {
    "use axum::{\n    routing::{get, post},\n    Router, Json, extract::Path,\n};\nuse serde::{Deserialize, Serialize};\n\n"@
}

/// The text of the generated module: the imports, the data types, the stub
/// handlers, and the function that registers every route.
pub open spec fn module_text(structs: Seq<StructDefView>, routes: Seq<RouteDefView>) -> Seq<char> {
    head_text() + joined(structs, |s: StructDefView| s.text()) + joined(
        routes,
        |r: RouteDefView| r.handler_text(),
    ) + "pub fn create_app() -> axum::Router {\n    axum::Router::new()\n"@ + joined(
        routes,
        |r: RouteDefView| r.registration_text(),
    ) + "}\n"@
}

/// The generated module of a description, or the failure of its lowering:
/// that of the data types before that of the routes.
pub open spec fn app_text(spec: OpenApiSpecView) -> Result<Seq<char>, GenerateErrorView> {
    match structs_of(schemas_of(spec)) {
        Ok(structs) => match routes_of(spec.paths) {
            Ok(routes) => Ok(module_text(structs, routes)),
            Err(e) => Err(e),
        },
        Err(e) => Err(e),
    }
}

/// One more item adds its text to the joined texts.
pub proof fn lemma_joined_step<T>(items: Seq<T>, text: spec_fn(T) -> Seq<char>, k: int)
    requires
        0 <= k < items.len(),
    ensures
        joined(items.take(k + 1), text) == joined(items.take(k), text) + text(items[k]),
{
    assert(items.take(k + 1).drop_last() == items.take(k));
    assert(items.take(k + 1).last() == items[k]);
}

impl TypeExpr {
    /// Appends the type, as it is written in the generated code, to `out`.
    pub fn write_to(&self, out: &mut String)
        ensures
            final(out)@ == old(out)@ + self@.text(),
        decreases self,
    {
        match self {
            TypeExpr::Named(name) => out.append(name.as_str()),
            TypeExpr::Sequence(item) => {
                out.append("Vec<");
                item.write_to(out);
                out.append(">");
            },
            TypeExpr::Untyped => out.append("serde_json::Value"),
            TypeExpr::Uuid => out.append("uuid::Uuid"),
            TypeExpr::Text => out.append("String"),
            TypeExpr::Int32 => out.append("i32"),
            TypeExpr::Int64 => out.append("i64"),
            TypeExpr::Float64 => out.append("f64"),
            TypeExpr::Boolean => out.append("bool"),
        }
    }

    /// The type as it is written in the generated code.
    pub fn render(&self) -> (text: String)
        ensures
            text@ == self@.text(),
    {
        let mut text = String::new();
        self.write_to(&mut text);
        text
    }
}

impl FieldDef {
    /// Appends the line that declares the field to `out`.
    pub fn write_to(&self, out: &mut String)
        ensures
            final(out)@ == old(out)@ + self@.text(),
    {
        out.append("    pub ");
        out.append(self.name.as_str());
        if self.optional {
            out.append(": Option<");
            self.ty.write_to(out);
            out.append(">,\n");
        } else {
            out.append(": ");
            self.ty.write_to(out);
            out.append(",\n");
        }
    }
}

impl StructDef {
    /// Appends the definition of the data type to `out`.
    pub fn write_to(&self, out: &mut String)
        ensures
            final(out)@ == old(out)@ + self@.text(),
    {
        let ghost start = out@;
        out.append("#[derive(Debug, Deserialize, Serialize)]\npub struct ");
        out.append(self.name.as_str());
        out.append(" {\n");
        let ghost opened = out@;
        match &self.body {
            StructBody::Record(fields) => {
                let ghost all = fields.deep_view();
                let ghost line = |f: FieldDefView| f.text();
                let mut i: usize = 0;
                assert(all.take(0) =~= Seq::empty());
                while i < fields.len()
                    invariant
                        i <= fields.len(),
                        all == fields.deep_view(),
                        line == |f: FieldDefView| f.text(),
                        out@ == opened + joined(all.take(i as int), line),
                    decreases fields.len() - i,
                {
                    proof {
                        lemma_joined_step(all, line, i as int);
                    }
                    fields[i].write_to(out);
                    i += 1;
                }
                assert(all.take(fields.len() as int) == all);
            },
            StructBody::Wrapper(ty) => {
                out.append("    value: ");
                ty.write_to(out);
                out.append(",\n");
            },
        }
        out.append("}\n\n");
        assert(out@ =~= start + self@.text());
    }

    /// The definition of the data type.
    pub fn render(&self) -> (text: String)
        ensures
            text@ == self@.text(),
    {
        let mut text = String::new();
        self.write_to(&mut text);
        text
    }
}

/// Appends `raw`, as it stands inside a string literal, to `out`.
pub fn write_escaped(raw: &str, out: &mut String)
    ensures
        final(out)@ == old(out)@ + escaped(raw@),
{
    let ghost start = out@;
    let ghost piece = |c: char| escaped_char(c);
    let chars = chars_of(raw);
    let mut i: usize = 0;
    assert(chars@.take(0) =~= Seq::empty());
    while i < chars.len()
        invariant
            i <= chars.len(),
            chars@ == raw@,
            piece == |c: char| escaped_char(c),
            out@ == start + joined(chars@.take(i as int), piece),
        decreases chars.len() - i,
    {
        proof {
            lemma_joined_step(chars@, piece, i as int);
        }
        let c = chars[i];
        if c == '\\' {
            out.push('\\');
            out.push('\\');
        } else if c == '"' {
            out.push('\\');
            out.push('"');
        } else if c == '\n' {
            out.push('\\');
            out.push('n');
        } else if c == '\r' {
            out.push('\\');
            out.push('r');
        } else if c == '\t' {
            out.push('\\');
            out.push('t');
        } else {
            out.push(c);
        }
        assert(out@ =~= start + joined(chars@.take(i as int), piece) + escaped_char(c));
        i += 1;
    }
    assert(chars@.take(chars.len() as int) == chars@);
}

impl RouteDef {
    /// Appends the stub handler of the route to `out`.
    pub fn write_handler(&self, out: &mut String)
        ensures
            final(out)@ == old(out)@ + self@.handler_text(),
    {
        let ghost start = out@;
        out.append("async fn ");
        out.append(self.handler.as_str());
        out.append("() -> &'static str {\n    \"Hello, World!\"\n}\n\n");
        assert(out@ =~= start + self@.handler_text());
    }

    /// Appends the line that registers the route to `out`.
    pub fn write_registration(&self, out: &mut String)
        ensures
            final(out)@ == old(out)@ + self@.registration_text(),
    {
        let ghost start = out@;
        out.append("        .route(\"");
        write_escaped(self.path.as_str(), out);
        out.append("\", axum::routing::");
        out.append(self.method.as_str());
        out.append("(");
        out.append(self.handler.as_str());
        out.append("))\n");
        assert(out@ =~= start + self@.registration_text());
    }
}

impl CodeGenerator {
    /// The text of the module that holds `structs` and `routes`.
    pub fn assemble(structs: &Vec<StructDef>, routes: &Vec<RouteDef>) -> (text: String)
        ensures
            text@ == module_text(structs.deep_view(), routes.deep_view()),
    {
        let ghost types = structs.deep_view();
        let ghost ways = routes.deep_view();
        let ghost definition = |s: StructDefView| s.text();
        let ghost handler = |r: RouteDefView| r.handler_text();
        let ghost registration = |r: RouteDefView| r.registration_text();
        let mut text =
            "use axum::{\n    routing::{get, post},\n    Router, Json, extract::Path,\n};\nuse serde::{Deserialize, Serialize};\n\n".to_owned();
        let mut i: usize = 0;
        assert(types.take(0) =~= Seq::empty());
        while i < structs.len()
            invariant
                i <= structs.len(),
                types == structs.deep_view(),
                definition == |s: StructDefView| s.text(),
                text@ == head_text() + joined(types.take(i as int), definition),
            decreases structs.len() - i,
        {
            proof {
                lemma_joined_step(types, definition, i as int);
            }
            structs[i].write_to(&mut text);
            i += 1;
        }
        assert(types.take(structs.len() as int) == types);
        let ghost typed = text@;
        let mut j: usize = 0;
        assert(ways.take(0) =~= Seq::empty());
        while j < routes.len()
            invariant
                j <= routes.len(),
                ways == routes.deep_view(),
                handler == |r: RouteDefView| r.handler_text(),
                text@ == typed + joined(ways.take(j as int), handler),
            decreases routes.len() - j,
        {
            proof {
                lemma_joined_step(ways, handler, j as int);
            }
            routes[j].write_handler(&mut text);
            j += 1;
        }
        assert(ways.take(routes.len() as int) == ways);
        text.append("pub fn create_app() -> axum::Router {\n    axum::Router::new()\n");
        let ghost opened = text@;
        let mut k: usize = 0;
        while k < routes.len()
            invariant
                k <= routes.len(),
                ways == routes.deep_view(),
                registration == |r: RouteDefView| r.registration_text(),
                text@ == opened + joined(ways.take(k as int), registration),
            decreases routes.len() - k,
        {
            proof {
                lemma_joined_step(ways, registration, k as int);
            }
            routes[k].write_registration(&mut text);
            k += 1;
        }
        text.append("}\n");
        assert(text@ =~= module_text(types, ways));
        text
    }

    /// The source text of the server skeleton for a description: the data
    /// types of its named schemas, the stub handlers of its GET and POST
    /// operations, and the function that registers every route.
    ///
    /// The text is a function of the description alone, and does not depend
    /// on the order in which paths, schemas or properties were given. Where
    /// lowering fails, nothing is generated.
    pub fn generate_axum_app(spec: &OpenApiSpec) -> (result: Result<String, GenerateError>)
        ensures
            result_view(result) == app_text(spec@),
    {
        match Self::generate_data_structures(spec) {
            Ok(structs) => match Self::generate_routes(spec) {
                Ok(routes) => Ok(Self::assemble(&structs, &routes)),
                Err(e) => Err(e),
            },
            Err(e) => Err(e),
        }
    }
}

} // verus!
