use bluejay_validator::document::{
    ExecutableDocument, Field, FragmentDefinition, FragmentSpread, InlineFragment,
    OperationDefinition, OperationType, Selection, VariableDefinition,
};
use bluejay_validator::executable::operation::analyzers::complexity_cost::cost_computer::{
    CostComputer, FieldMultipliers,
};
use bluejay_validator::executable::operation::analyzers::complexity_cost::relay::{
    cost_directive_argument, field_sizing_argument, is_connection, page_count, PageCount,
    RelayFieldMultipliers,
};
use bluejay_validator::executable::operation::analyzers::complexity_cost::{
    base_type_is_composite, ComplexityCost,
};
use bluejay_validator::executable::operation::analyzers::deprecation::{
    Deprecation, Offender as DeprecationOffender, UsageType,
};
use bluejay_validator::executable::operation::analyzers::input_size::{
    InputSize, Offender as InputSizeOffender,
};
use bluejay_validator::executable::operation::analyzers::query_depth::QueryDepth;
use bluejay_validator::executable::operation::orchestrator::{Event, Orchestrator};
use bluejay_validator::executable::operation::variable_values::VariableValues;
use bluejay_validator::integer::IntegerValue;
use bluejay_validator::schema::{
    DirectiveDefinition, DirectiveLocation, EnumValueDefinition, FieldDefinition,
    InputValueDefinition, SchemaDefinition, TypeDefinition, TypeDefinitionKind, TypeReference,
};
use bluejay_validator::value::{Argument, Directive, Span, Value};

// A small reader for the GraphQL documents and schemas of these tests.

#[derive(Clone, Debug, PartialEq)]
enum Token {
    Punct(char),
    Spread,
    Name(String),
    Int(String),
    Float(String),
    Str(String),
}

fn tokenize(source: &str) -> (Vec<Token>, Vec<(usize, usize)>) {
    let chars: Vec<char> = source.chars().collect();
    let mut tokens = Vec::new();
    let mut spans = Vec::new();
    let mut i = 0;
    while i < chars.len() {
        let start = i;
        let count = tokens.len();
        tokenize_one(&chars, &mut i, &mut tokens);
        if tokens.len() > count {
            spans.push((start, i));
        }
    }
    (tokens, spans)
}

fn tokenize_one(chars: &[char], index: &mut usize, tokens: &mut Vec<Token>) {
    let mut i = *index;
    {
        let c = chars[i];
        if c.is_whitespace() || c == ',' {
            i += 1;
        } else if c == '#' {
            while i < chars.len() && chars[i] != '\n' {
                i += 1;
            }
        } else if c == '.' {
            assert!(chars[i + 1] == '.' && chars[i + 2] == '.');
            tokens.push(Token::Spread);
            i += 3;
        } else if "{}()[]:=@$!|&".contains(c) {
            tokens.push(Token::Punct(c));
            i += 1;
        } else if c == '"' {
            let mut text = String::new();
            i += 1;
            while chars[i] != '"' {
                if chars[i] == '\\' {
                    i += 1;
                }
                text.push(chars[i]);
                i += 1;
            }
            i += 1;
            tokens.push(Token::Str(text));
        } else if c == '-' || c.is_ascii_digit() {
            let start = i;
            i += 1;
            let mut float = false;
            while i < chars.len()
                && (chars[i].is_ascii_digit() || ".eE+-".contains(chars[i]))
            {
                if !chars[i].is_ascii_digit() {
                    float = true;
                }
                i += 1;
            }
            let text: String = chars[start..i].iter().collect();
            tokens.push(if float { Token::Float(text) } else { Token::Int(text) });
        } else if c == '_' || c.is_ascii_alphabetic() {
            let start = i;
            while i < chars.len() && (chars[i] == '_' || chars[i].is_ascii_alphanumeric()) {
                i += 1;
            }
            tokens.push(Token::Name(chars[start..i].iter().collect()));
        } else {
            panic!("unexpected character {c}");
        }
    }
    *index = i;
}

struct Reader {
    tokens: Vec<Token>,
    spans: Vec<(usize, usize)>,
    position: usize,
}

impl Reader {
    fn new(source: &str) -> Reader {
        let (tokens, spans) = tokenize(source);
        Reader { tokens, spans, position: 0 }
    }

    /// The span of the token read last.
    fn last_span(&self) -> Span {
        let (start, end) = self.spans[self.position - 1];
        Span { start, end }
    }

    /// The span from the start of token `first` to the end of the token read last.
    fn span_from(&self, first: usize) -> Span {
        Span { start: self.spans[first].0, end: self.spans[self.position - 1].1 }
    }

    fn peek(&self) -> Option<&Token> {
        self.tokens.get(self.position)
    }

    fn next(&mut self) -> Token {
        let t = self.tokens[self.position].clone();
        self.position += 1;
        t
    }

    fn at_punct(&self, c: char) -> bool {
        self.peek() == Some(&Token::Punct(c))
    }

    fn at_name(&self, n: &str) -> bool {
        self.peek() == Some(&Token::Name(n.to_string()))
    }

    fn eat_punct(&mut self, c: char) -> bool {
        if self.at_punct(c) {
            self.position += 1;
            true
        } else {
            false
        }
    }

    fn expect_punct(&mut self, c: char) {
        assert!(self.eat_punct(c), "expected {c} at token {}", self.position);
    }

    fn name(&mut self) -> String {
        match self.next() {
            Token::Name(n) => n,
            t => panic!("expected a name, found {t:?}"),
        }
    }

    fn value(&mut self) -> Value {
        match self.next() {
            Token::Punct('$') => Value::Variable(self.name()),
            Token::Int(text) => Value::Integer(IntegerValue::Literal(text)),
            Token::Float(text) => Value::Float(text),
            Token::Str(text) => Value::String(text),
            Token::Name(n) => match n.as_str() {
                "true" => Value::Boolean(true),
                "false" => Value::Boolean(false),
                "null" => Value::Null,
                _ => Value::Enum(n),
            },
            Token::Punct('[') => {
                let mut items = Vec::new();
                while !self.eat_punct(']') {
                    items.push(self.value());
                }
                Value::List(items)
            }
            Token::Punct('{') => {
                let mut entries = Vec::new();
                while !self.eat_punct('}') {
                    let key = self.name();
                    self.expect_punct(':');
                    entries.push((key, self.value()));
                }
                Value::Object(entries)
            }
            t => panic!("unexpected token in value: {t:?}"),
        }
    }

    fn arguments(&mut self) -> Vec<Argument> {
        let mut arguments = Vec::new();
        if self.eat_punct('(') {
            while !self.eat_punct(')') {
                let name = self.name();
                let name_span = self.last_span();
                self.expect_punct(':');
                arguments.push(Argument { name, value: self.value(), name_span });
            }
        }
        arguments
    }

    fn directives(&mut self) -> Vec<Directive> {
        let mut directives = Vec::new();
        while self.eat_punct('@') {
            let first = self.position - 1;
            let name = self.name();
            let name_span = self.last_span();
            let arguments = self.arguments();
            directives.push(Directive { name, arguments, name_span, span: self.span_from(first) });
        }
        directives
    }

    fn type_reference(&mut self) -> TypeReference {
        let t = if self.eat_punct('[') {
            let inner = self.type_reference();
            self.expect_punct(']');
            TypeReference::List { inner: Box::new(inner), required: false }
        } else {
            TypeReference::Named { name: self.name(), required: false }
        };
        if self.eat_punct('!') {
            match t {
                TypeReference::List { inner, .. } => TypeReference::List { inner, required: true },
                TypeReference::Named { name, .. } => TypeReference::Named { name, required: true },
            }
        } else {
            t
        }
    }

    fn selection_set(&mut self) -> (Vec<Selection>, Span) {
        let mut selections = Vec::new();
        let first = self.position;
        self.expect_punct('{');
        while !self.eat_punct('}') {
            if self.peek() == Some(&Token::Spread) {
                let spread = self.position;
                self.next();
                if self.at_name("on") {
                    self.next();
                    let type_condition = Some(self.name());
                    let directives = self.directives();
                    let (selection_set, selection_set_span) = self.selection_set();
                    selections.push(Selection::InlineFragment(InlineFragment {
                        type_condition,
                        directives,
                        selection_set,
                        span: self.span_from(spread),
                        selection_set_span,
                    }));
                } else if let Some(Token::Name(_)) = self.peek() {
                    let name = self.name();
                    let name_span = self.last_span();
                    let directives = self.directives();
                    selections.push(Selection::FragmentSpread(FragmentSpread { name, directives, name_span }));
                } else {
                    let directives = self.directives();
                    let (selection_set, selection_set_span) = self.selection_set();
                    selections.push(Selection::InlineFragment(InlineFragment {
                        type_condition: None,
                        directives,
                        selection_set,
                        span: self.span_from(spread),
                        selection_set_span,
                    }));
                }
            } else {
                let first_name = self.name();
                let mut name_span = self.last_span();
                let (alias, name) = if self.eat_punct(':') {
                    let name = self.name();
                    name_span = self.last_span();
                    (Some(first_name), name)
                } else {
                    (None, first_name)
                };
                let arguments = self.arguments();
                let directives = self.directives();
                let (selection_set, selection_set_span) = if self.at_punct('{') {
                    self.selection_set()
                } else {
                    (Vec::new(), name_span)
                };
                selections.push(Selection::Field(Field {
                    alias,
                    name,
                    arguments,
                    directives,
                    selection_set,
                    name_span,
                    selection_set_span,
                }));
            }
        }
        (selections, self.span_from(first))
    }

    fn input_values(&mut self, close: char) -> Vec<InputValueDefinition> {
        let mut definitions = Vec::new();
        while !self.eat_punct(close) {
            let name = self.name();
            let name_span = self.last_span();
            self.expect_punct(':');
            let type_ref = self.type_reference();
            let default_value = if self.eat_punct('=') { Some(self.value()) } else { None };
            let directives = self.directives();
            definitions.push(InputValueDefinition { name, type_ref, default_value, directives, name_span });
        }
        definitions
    }

    fn interfaces(&mut self) -> Vec<String> {
        let mut interfaces = Vec::new();
        if self.at_name("implements") {
            self.next();
            self.eat_punct('&');
            interfaces.push(self.name());
            while self.eat_punct('&') {
                interfaces.push(self.name());
            }
        }
        interfaces
    }

    fn field_definitions(&mut self) -> Vec<FieldDefinition> {
        let mut fields = Vec::new();
        self.expect_punct('{');
        while !self.eat_punct('}') {
            let name = self.name();
            let arguments = if self.eat_punct('(') { self.input_values(')') } else { Vec::new() };
            self.expect_punct(':');
            let type_ref = self.type_reference();
            let directives = self.directives();
            fields.push(FieldDefinition { name, arguments, type_ref, directives });
        }
        fields
    }
}

fn location(name: &str) -> DirectiveLocation {
    match name {
        "QUERY" => DirectiveLocation::Query,
        "MUTATION" => DirectiveLocation::Mutation,
        "SUBSCRIPTION" => DirectiveLocation::Subscription,
        "FIELD" => DirectiveLocation::Field,
        "FRAGMENT_DEFINITION" => DirectiveLocation::FragmentDefinition,
        "FRAGMENT_SPREAD" => DirectiveLocation::FragmentSpread,
        "INLINE_FRAGMENT" => DirectiveLocation::InlineFragment,
        "VARIABLE_DEFINITION" => DirectiveLocation::VariableDefinition,
        "SCHEMA" => DirectiveLocation::Schema,
        "SCALAR" => DirectiveLocation::Scalar,
        "OBJECT" => DirectiveLocation::Object,
        "FIELD_DEFINITION" => DirectiveLocation::FieldDefinition,
        "ARGUMENT_DEFINITION" => DirectiveLocation::ArgumentDefinition,
        "INTERFACE" => DirectiveLocation::Interface,
        "UNION" => DirectiveLocation::Union,
        "ENUM" => DirectiveLocation::Enum,
        "ENUM_VALUE" => DirectiveLocation::EnumValue,
        "INPUT_OBJECT" => DirectiveLocation::InputObject,
        "INPUT_FIELD_DEFINITION" => DirectiveLocation::InputFieldDefinition,
        _ => panic!("unknown directive location {name}"),
    }
}

fn builtin_directive(name: &str, argument: &str, required: bool, locations: Vec<DirectiveLocation>) -> DirectiveDefinition {
    DirectiveDefinition {
        name: name.to_string(),
        arguments: vec![InputValueDefinition {
            name: argument.to_string(),
            type_ref: TypeReference::Named {
                name: if required { "Boolean".to_string() } else { "String".to_string() },
                required,
            },
            default_value: None,
            directives: Vec::new(),
            name_span: Span { start: 0, end: 0 },
        }],
        locations,
    }
}

fn schema_model(source: &str) -> SchemaDefinition {
    let mut reader = Reader::new(source);
    let mut types = Vec::new();
    let mut directives = vec![
        builtin_directive(
            "skip",
            "if",
            true,
            vec![DirectiveLocation::Field, DirectiveLocation::FragmentSpread, DirectiveLocation::InlineFragment],
        ),
        builtin_directive(
            "include",
            "if",
            true,
            vec![DirectiveLocation::Field, DirectiveLocation::FragmentSpread, DirectiveLocation::InlineFragment],
        ),
        builtin_directive(
            "deprecated",
            "reason",
            false,
            vec![
                DirectiveLocation::FieldDefinition,
                DirectiveLocation::ArgumentDefinition,
                DirectiveLocation::InputFieldDefinition,
                DirectiveLocation::EnumValue,
            ],
        ),
    ];
    let mut query = "Query".to_string();
    let mut mutation = None;
    let mut subscription = None;
    while reader.peek().is_some() {
        let keyword = reader.name();
        match keyword.as_str() {
            "directive" => {
                reader.expect_punct('@');
                let name = reader.name();
                let arguments = if reader.eat_punct('(') { reader.input_values(')') } else { Vec::new() };
                if reader.at_name("repeatable") {
                    reader.next();
                }
                assert!(reader.at_name("on"));
                reader.next();
                reader.eat_punct('|');
                let mut locations = vec![location(&reader.name())];
                while reader.eat_punct('|') {
                    locations.push(location(&reader.name()));
                }
                directives.push(DirectiveDefinition { name, arguments, locations });
            }
            "enum" => {
                let name = reader.name();
                let type_directives = reader.directives();
                reader.expect_punct('{');
                let mut values = Vec::new();
                while !reader.eat_punct('}') {
                    let value = reader.name();
                    let name_span = reader.last_span();
                    values.push(EnumValueDefinition { name: value, directives: reader.directives(), name_span });
                }
                types.push(TypeDefinition { name, kind: TypeDefinitionKind::Enum { values }, directives: type_directives });
            }
            "input" => {
                let name = reader.name();
                let type_directives = reader.directives();
                reader.expect_punct('{');
                let fields = reader.input_values('}');
                types.push(TypeDefinition { name, kind: TypeDefinitionKind::InputObject { fields }, directives: type_directives });
            }
            "type" | "interface" => {
                let name = reader.name();
                let interfaces = reader.interfaces();
                let type_directives = reader.directives();
                let fields = reader.field_definitions();
                let kind = if keyword == "type" {
                    TypeDefinitionKind::Object { fields, interfaces }
                } else {
                    TypeDefinitionKind::Interface { fields, interfaces }
                };
                types.push(TypeDefinition { name, kind, directives: type_directives });
            }
            "union" => {
                let name = reader.name();
                let type_directives = reader.directives();
                reader.expect_punct('=');
                reader.eat_punct('|');
                let mut members = vec![reader.name()];
                while reader.eat_punct('|') {
                    members.push(reader.name());
                }
                types.push(TypeDefinition { name, kind: TypeDefinitionKind::Union { members }, directives: type_directives });
            }
            "scalar" => {
                let name = reader.name();
                let type_directives = reader.directives();
                types.push(TypeDefinition { name, kind: TypeDefinitionKind::CustomScalar, directives: type_directives });
            }
            "schema" => {
                reader.expect_punct('{');
                while !reader.eat_punct('}') {
                    let operation = reader.name();
                    reader.expect_punct(':');
                    let root = reader.name();
                    match operation.as_str() {
                        "query" => query = root,
                        "mutation" => mutation = Some(root),
                        _ => subscription = Some(root),
                    }
                }
            }
            _ => panic!("unexpected definition {keyword}"),
        }
    }
    for builtin in ["String", "Int", "Float", "Boolean", "ID"] {
        types.push(TypeDefinition {
            name: builtin.to_string(),
            kind: TypeDefinitionKind::BuiltinScalar,
            directives: Vec::new(),
        });
    }
    SchemaDefinition { types, directives, query, mutation, subscription }
}

fn document_model(source: &str) -> ExecutableDocument {
    let mut reader = Reader::new(source);
    let mut operation_definitions = Vec::new();
    let mut fragment_definitions = Vec::new();
    while reader.peek().is_some() {
        if reader.at_punct('{') {
            let (selection_set, selection_set_span) = reader.selection_set();
            operation_definitions.push(OperationDefinition {
                operation_type: OperationType::Query,
                name: None,
                variable_definitions: Vec::new(),
                directives: Vec::new(),
                selection_set,
                name_span: None,
                selection_set_span,
            });
            continue;
        }
        let keyword = reader.name();
        if keyword == "fragment" {
            let name = reader.name();
            let name_span = reader.last_span();
            assert!(reader.at_name("on"));
            reader.next();
            let type_condition = reader.name();
            let directives = reader.directives();
            let (selection_set, selection_set_span) = reader.selection_set();
            fragment_definitions.push(FragmentDefinition {
                name,
                type_condition,
                directives,
                selection_set,
                name_span,
                selection_set_span,
            });
            continue;
        }
        let operation_type = match keyword.as_str() {
            "query" => OperationType::Query,
            "mutation" => OperationType::Mutation,
            _ => OperationType::Subscription,
        };
        let (name, name_span) = match reader.peek() {
            Some(Token::Name(_)) => (Some(reader.name()), Some(reader.last_span())),
            _ => (None, None),
        };
        let mut variable_definitions = Vec::new();
        if reader.eat_punct('(') {
            while !reader.eat_punct(')') {
                reader.expect_punct('$');
                let variable = reader.name();
                reader.expect_punct(':');
                let type_ref = reader.type_reference();
                let default_value = if reader.eat_punct('=') { Some(reader.value()) } else { None };
                let directives = reader.directives();
                variable_definitions.push(VariableDefinition { variable, type_ref, default_value, directives });
            }
        }
        let directives = reader.directives();
        let (selection_set, selection_set_span) = reader.selection_set();
        operation_definitions.push(OperationDefinition {
            operation_type,
            name,
            variable_definitions,
            directives,
            selection_set,
            name_span,
            selection_set_span,
        });
    }
    ExecutableDocument { operation_definitions, fragment_definitions }
}

fn json_value(value: &serde_json::Value) -> Value {
    match value {
        serde_json::Value::Null => Value::Null,
        serde_json::Value::Bool(b) => Value::Boolean(*b),
        serde_json::Value::Number(n) => {
            if let Some(i) = n.as_i64() {
                Value::Integer(IntegerValue::Signed(i))
            } else if let Some(u) = n.as_u64() {
                Value::Integer(IntegerValue::Unsigned(u))
            } else {
                Value::Float(n.to_string())
            }
        }
        serde_json::Value::String(s) => Value::String(s.clone()),
        serde_json::Value::Array(a) => Value::List(a.iter().map(json_value).collect()),
        serde_json::Value::Object(o) => {
            Value::Object(o.iter().map(|(k, v)| (k.clone(), json_value(v))).collect())
        }
    }
}

fn json(text: &str) -> serde_json::Value {
    serde_json::from_str(text).unwrap()
}

fn variable_values(value: &serde_json::Value) -> VariableValues {
    VariableValues {
        entries: value
            .as_object()
            .expect("Variables must be an object")
            .iter()
            .map(|(k, v)| (k.clone(), json_value(v)))
            .collect(),
    }
}

fn integer_text(value: &IntegerValue) -> String {
    match value {
        IntegerValue::Literal(s) => s.clone(),
        IntegerValue::Signed(v) => v.to_string(),
        IntegerValue::Unsigned(v) => v.to_string(),
    }
}

// ---------------------------------------------------------------- depth

const DEPTH_SCHEMA: &str = r#"
    type Query {
      node: Node
      thing: Thing!
      ping: String!
    }
    interface Node {
      id: ID!
    }
    type Product implements Node {
        id: ID!
        title: String!
        things: [Thing]!
    }
    type Thing implements Node {
      id: ID!
      title: String!
      parent: Thing!
    }
    schema {
      query: Query
    }
"#;

fn check_depth(
    source: &str,
    operation_name: Option<&str>,
    variables: serde_json::Value,
    expected_depth: usize,
) {
    let schema = schema_model(DEPTH_SCHEMA);
    let document = document_model(source);
    let variables = variable_values(&variables);
    let name = operation_name.map(str::to_string);
    let depth = QueryDepth::analyze(&document, &schema, name.as_ref(), &variables).ok().unwrap();
    assert_eq!(depth, expected_depth);
}

#[test]
fn basic_depth_metrics() {
    check_depth(r#"{ ping }"#, None, json(r#"{}"#), 1);
    check_depth(r#"{ thing { id } }"#, None, json(r#"{}"#), 2);
    check_depth(r#"{ thing { parent { id } } }"#, None, json(r#"{}"#), 3);
    check_depth(
        r#"{
            thing { parent { parent { id } } }
            thing { parent { id } }
        }"#,
        None,
        json(r#"{}"#),
        4,
    );
}

#[test]
fn depth_with_operation_context() {
    check_depth(
        r#"
        query D2{
            thing { title }
        }
        query D4 {
            d4: thing { parent { parent { id } } }
        }"#,
        Some("D2"),
        json(r#"{}"#),
        2,
    );
}

#[test]
fn depth_with_inline_fragments() {
    check_depth(
        r#"{
            node {
                ...on Product { title }
                ...on Thing { parent { title } }
            }
        }"#,
        None,
        json(r#"{}"#),
        3,
    );
}

#[test]
fn depth_with_fragment_spreads() {
    check_depth(
        r#"{
            node {
                ...ProductAttrs
                ...ThingAttrs
            }
        }
        fragment ProductAttrs on Product {
            title
        }
        fragment ThingAttrs on Thing {
            parent { title }
        }
        "#,
        None,
        json(r#"{}"#),
        3,
    );
}

#[test]
fn depth_with_const_skip_include_fields() {
    check_depth(
        r#"{
            d1: ping
            d2: thing @skip(if: false) { title }
            d4: thing @skip(if: true) { parent { parent { id } } }
        }"#,
        None,
        json(r#"{}"#),
        2,
    );

    check_depth(
        r#"{
            d1: ping
            d2: thing @include(if: true) { title }
            d4: thing @include(if: false) { parent { parent { id } } }
        }"#,
        None,
        json(r#"{}"#),
        2,
    );
}

#[test]
fn depth_with_variable_skip_include_fields() {
    check_depth(
        r#"query($no: Boolean, $yes: Boolean) {
            d1: ping
            d2: thing @skip(if: $no) { title }
            d4: thing @skip(if: $yes) { parent { parent { id } } }
        }"#,
        None,
        json(r#"{ "no": false, "yes": true }"#),
        2,
    );

    check_depth(
        r#"query($no: Boolean, $yes: Boolean) {
            d1: ping
            d2: thing @include(if: $yes) { title }
            d4: thing @include(if: $no) { parent { parent { id } } }
        }"#,
        None,
        json(r#"{ "no": false, "yes": true }"#),
        2,
    );
}

#[test]
fn depth_with_default_variable_skip_include_fields() {
    check_depth(
        r#"query($no: Boolean = false, $yes: Boolean = true) {
            d1: ping
            d2: thing @skip(if: $no) { title }
            d4: thing @skip(if: $yes) { parent { parent { id } } }
        }"#,
        None,
        json(r#"{}"#),
        2,
    );
}

#[test]
fn depth_with_skip_include_fragments() {
    check_depth(
        r#"query {
            d1: ping
            ...@skip(if: false) { d2: thing { title } }
            ...@skip(if: true) { d4: thing { parent { parent { id } } } }
        }"#,
        None,
        json(r#"{}"#),
        2,
    );

    check_depth(
        r#"query {
            d1: ping
            ...D2 @skip(if: false)
            ...D4 @skip(if: true)
        }
        fragment D2 on Query {
            d2: thing { title }
        }
        fragment D4 on Query {
            d4: thing { parent { parent { id } } }
        }"#,
        None,
        json(r#"{}"#),
        2,
    );
}

// ---------------------------------------------------------------- input size

const INPUT_SIZE_SCHEMA: &str = r#"
    directive @test(y: [String]) on FIELD_DEFINITION

    input ObjectList {
        property: [String]
    }
    type Query {
      simple(x: [String]): String!
      object(x: ObjectList): String!
      list_object(x: [ObjectList]): String!
    }
    schema {
      query: Query
    }
"#;

fn analyze_input_size(query: &str, variables: serde_json::Value) -> Vec<InputSizeOffender> {
    let schema = schema_model(INPUT_SIZE_SCHEMA);
    let document = document_model(query);
    let variables = variable_values(&variables);
    InputSize::analyze(&document, &schema, None, &variables, 1).ok().unwrap()
}

#[test]
fn simple_size() {
    let result = analyze_input_size(r#"query { simple(x: ["x", "y"])} "#, json(r#"{}"#));
    let result = result.first().unwrap();
    assert_eq!(result.size, 2);
    assert_eq!(result.name, "x");
}

#[test]
fn simple_directive_size() {
    let result = analyze_input_size(r#"query { simple(x: []) @test(y: ["x", "y"])} "#, json(r#"{}"#));
    let result = result.first().unwrap();
    assert_eq!(result.size, 2);
    assert_eq!(result.name, "y");
}

#[test]
fn simple_size_variable() {
    let result = analyze_input_size(
        r#"query ($x: [String]) { simple(x: $x)} "#,
        json(r#"{ "x": ["x", "y"] }"#),
    );
    let result = result.first().unwrap();
    assert_eq!(result.size, 2);
    assert_eq!(result.name, "x");
}

#[test]
fn object_size() {
    let result = analyze_input_size(
        r#"query { object(x: { property: ["x", "y"] })} "#,
        json(r#"{}"#),
    );
    let result = result.first().unwrap();
    assert_eq!(result.size, 2);
    assert_eq!(result.name, "x.property");
}

#[test]
fn object_size_variable() {
    let result = analyze_input_size(
        r#"query($x: ObjectList) { object(x: $x)} "#,
        json(r#"{ "x": { "property": ["x", "y"] } }"#),
    );
    let result = result.first().unwrap();
    assert_eq!(result.size, 2);
    assert_eq!(result.name, "x.property");
}

#[test]
fn list_object_size() {
    let result = analyze_input_size(
        r#"query { list_object(x: [{ property: ["x", "y"] }, { property: ["x", "y"] }])} "#,
        json(r#"{}"#),
    );
    assert_eq!(result.len(), 1);
    let first = result.first().unwrap();
    assert_eq!(first.size, 2);
    assert_eq!(first.name, "x");
}

#[test]
fn list_object_size_variable() {
    let result = analyze_input_size(
        r#"query($x: [ObjectList]) { list_object(x: $x)} "#,
        json(r#"{ "x": [{ "property": ["x", "y"] }, { "property": ["x", "y"] }] }"#),
    );
    let result = result.first().unwrap();
    assert_eq!(result.size, 2);
    assert_eq!(result.name, "x");
}

#[test]
fn list_nested_object_size() {
    let result = analyze_input_size(
        r#"query { list_object(x: [{ property: ["x", "y"] }])} "#,
        json(r#"{}"#),
    );
    assert_eq!(result.len(), 1);
    let first = result.first().unwrap();
    assert_eq!(first.size, 2);
    assert_eq!(first.name, "x.0.property");
}

#[test]
fn list_nested_object_size_variable() {
    let result = analyze_input_size(
        r#"query($x: [ObjectList]) { list_object(x: $x)} "#,
        json(r#"{ "x": [{ "property": ["x", "y"] }] }"#),
    );
    let result = result.first().unwrap();
    assert_eq!(result.size, 2);
    assert_eq!(result.name, "x.0.property");
}

// ---------------------------------------------------------------- deprecation

const DEPRECATION_SCHEMA: &str = r#"
    enum TestEnum {
        DEPRECATED @deprecated(reason: "enum_value")
    }

    input TestInput {
        deprecated_input_field: String @deprecated(reason: "input_field")
    }

    input NestedInput {
        nested: TestInput
    }

    type Query {
      valid_field: String!
      test_field: String! @deprecated(reason: "field")
      test_enum(deprecated_enum: TestEnum): String!
      test_arg(
        deprecated_arg: String @deprecated(reason: "arg")
      ): String!
      test_input(
        input: TestInput
      ): String!
      test_nested_input(nested_input: NestedInput): String!
      test_nested_input_list(nested_input: [NestedInput]): String!
    }
    schema {
      query: Query
    }
"#;

fn offender(name: &str, reason: &str, offense_type: UsageType) -> (String, String, UsageType) {
    (name.to_string(), reason.to_string(), offense_type)
}

fn validate_deprecations(
    query: &str,
    variables: serde_json::Value,
    expected: Vec<(String, String, UsageType)>,
) {
    let schema = schema_model(DEPRECATION_SCHEMA);
    let document = document_model(query);
    let variables = variable_values(&variables);
    let deprecations: Vec<DeprecationOffender> =
        Deprecation::analyze(&document, &schema, None, &variables).ok().unwrap();
    let found: Vec<(String, String, UsageType)> = deprecations
        .into_iter()
        .map(|o| (o.name, o.reason, o.offense_type))
        .collect();
    assert_eq!(found, expected);
}

#[test]
fn field_deprecation() {
    validate_deprecations(
        r#"query { test_field }"#,
        json(r#"{}"#),
        vec![offender("test_field", "field", UsageType::Field)],
    );
}

#[test]
fn valid_field() {
    validate_deprecations(r#"query { valid_field }"#, json(r#"{}"#), vec![]);
}

#[test]
fn variable_enum_value_deprecation() {
    validate_deprecations(
        r#"query ($test: TestEnum) { test_enum(deprecated_enum: $test) }"#,
        json(r#"{ "test": "DEPRECATED" }"#),
        vec![offender("test", "enum_value", UsageType::EnumValue)],
    );
}

#[test]
fn enum_value_deprecation() {
    validate_deprecations(
        r#"query { test_enum(deprecated_enum: DEPRECATED) }"#,
        json(r#"{}"#),
        vec![offender("deprecated_enum", "enum_value", UsageType::EnumValue)],
    );
}

#[test]
fn arg_deprecation() {
    validate_deprecations(
        r#"query { test_arg(deprecated_arg: "x") }"#,
        json(r#"{}"#),
        vec![offender("deprecated_arg", "arg", UsageType::Argument)],
    );
}

#[test]
fn variable_arg_deprecation() {
    validate_deprecations(
        r#"query($test: String) { test_arg(deprecated_arg: $test) }"#,
        json(r#"{ "test": "x" }"#),
        vec![offender("deprecated_arg", "arg", UsageType::Argument)],
    );
}

#[test]
fn input_field_deprecation() {
    validate_deprecations(
        r#"query { test_input(input: { deprecated_input_field: "x" }) }"#,
        json(r#"{}"#),
        vec![offender("deprecated_input_field", "input_field", UsageType::InputField)],
    );
}

#[test]
fn variable_input_field_deprecation() {
    validate_deprecations(
        r#"query($input: TestInput) { test_input(input: $input) }"#,
        json(r#"{ "input": { "deprecated_input_field": "x" } }"#),
        vec![offender("deprecated_input_field", "input_field", UsageType::InputField)],
    );
}

#[test]
fn nested_variable_input_field_deprecation() {
    validate_deprecations(
        r#"query($test: String) { test_input(input: { deprecated_input_field: $test }) }"#,
        json(r#"{
            "test": "x"
        }"#),
        vec![offender("deprecated_input_field", "input_field", UsageType::InputField)],
    );
}

#[test]
fn nested_input_field_deprecation() {
    validate_deprecations(
        r#"query { test_nested_input(nested_input: { nested: { deprecated_input_field: "x" } }) }"#,
        json(r#"{}"#),
        vec![offender("deprecated_input_field", "input_field", UsageType::InputField)],
    );
}

#[test]
fn nested_list_input_field_deprecation() {
    validate_deprecations(
        r#"query { test_nested_input_list(nested_input: [{ nested: { deprecated_input_field: "x" } }]) }"#,
        json(r#"{}"#),
        vec![offender("deprecated_input_field", "input_field", UsageType::InputField)],
    );
}

#[test]
fn nested_variable_list_input_field_deprecation() {
    validate_deprecations(
        r#"query($test: [NestedInput]) { test_nested_input_list(nested_input: $test) }"#,
        json(r#"{ "test": [{ "nested": { "deprecated_input_field": "x" } }] }"#),
        vec![offender("deprecated_input_field", "input_field", UsageType::InputField)],
    );
}

// ---------------------------------------------------------------- evaluate_int

#[test]
fn evaluate_int_preserves_variables_and_defaults_losslessly() {
    for (default, variables, expected) in [
        ("2147483647", json(r#"{}"#), Some("2147483647")),
        ("-2147483648", json(r#"{}"#), Some("-2147483648")),
        ("2147483648", json(r#"{}"#), Some("2147483648")),
        (
            "18446744073709551616",
            json(r#"{}"#),
            Some("18446744073709551616"),
        ),
        (
            "-18446744073709551616",
            json(r#"{}"#),
            Some("-18446744073709551616"),
        ),
        ("-0", json(r#"{}"#), Some("-0")),
        ("42", json(r#"{"n": 2147483648}"#), Some("2147483648")),
        ("42", json(r#"{"n": -9223372036854775808}"#), Some("-9223372036854775808")),
        ("42", json(r#"{"n": 9223372036854775807}"#), Some("9223372036854775807")),
        ("42", json(r#"{"n": 18446744073709551615}"#), Some("18446744073709551615")),
        ("42", json(r#"{"n": -1}"#), Some("-1")),
        ("42", json(r#"{"n": null}"#), None),
        ("42", json(r#"{"n": 1.0}"#), None),
        ("42", json(r#"{"n": "2147483648"}"#), None),
    ] {
        let source = format!("query Q($n: Int = {default}) {{ f(n: $n) }}");
        let document = document_model(&source);
        let values = variable_values(&variables);
        assert_eq!(
            expected.map(str::to_owned),
            document.operation_definitions[0]
                .evaluate_int(&"n".to_string(), &values)
                .map(integer_text),
            "{default}, {variables}"
        );
    }
}

#[test]
fn evaluate_int_requires_an_int_variable_and_a_value() {
    for source in [
        "query Q { f }",
        "query Q($other: Int = 42) { f(n: $other) }",
        "query Q($n: Float) { f(n: $n) }",
        "query Q($n: [Int]) { f(n: $n) }",
    ] {
        let document = document_model(source);
        let values = variable_values(&json(r#"{"n": 2147483648}"#));
        assert!(
            document.operation_definitions[0]
                .evaluate_int(&"n".to_string(), &values)
                .is_none(),
            "{source}"
        );
    }
    let document = document_model("query Q($n: Int) { f(n: $n) }");
    let values = variable_values(&json(r#"{}"#));
    assert!(document.operation_definitions[0]
        .evaluate_int(&"n".to_string(), &values)
        .is_none());
}

// ---------------------------------------------------------------- complexity

struct RelayCostComputer<'a> {
    operation_definition: &'a OperationDefinition,
    schema_definition: &'a SchemaDefinition,
    variable_values: &'a VariableValues,
}

fn multiplier_for_static_size(static_size: &IntegerValue) -> usize {
    match page_count(static_size) {
        PageCount::Zero => 0,
        PageCount::Unbounded => usize::MAX,
        PageCount::Pages(pages) => (2f32 * (pages as f32).ln()).floor() as usize,
    }
}

impl<'a> CostComputer for RelayCostComputer<'a> {
    type FieldMultipliers = RelayFieldMultipliers;

    fn spec_cost_for_field_definition(&self, field_definition: FieldDefinition) -> usize {
        self.cost_for_field_definition(&field_definition)
    }

    fn spec_field_multipliers(
        &self,
        field_definition: FieldDefinition,
        field: Field,
    ) -> RelayFieldMultipliers {
        self.field_multipliers(&field_definition, &field)
    }

    fn cost_for_field_definition(&self, field_definition: &FieldDefinition) -> usize {
        cost_directive_argument(field_definition, "weight")
            .and_then(|weight| weight.parse::<f32>().ok())
            .map(|weight| weight.max(0f32) as usize)
            .unwrap_or_else(|| {
                if base_type_is_composite(self.schema_definition, &field_definition.type_ref) {
                    1
                } else {
                    0
                }
            })
    }

    fn field_multipliers(
        &self,
        field_definition: &FieldDefinition,
        field: &Field,
    ) -> RelayFieldMultipliers {
        if is_connection(field_definition) {
            let multiplier = |argument: &str| {
                field_sizing_argument(
                    self.operation_definition,
                    self.variable_values,
                    field,
                    argument,
                )
                .map(multiplier_for_static_size)
            };
            RelayFieldMultipliers::for_connection(multiplier("first"), multiplier("last"))
        } else {
            RelayFieldMultipliers::unconfigured()
        }
    }
}

const COMPLEXITY_SCHEMA: &str = r#"
    directive @cost(weight: String!, kind: String) on FIELD_DEFINITION

    enum BasicEnum {
      YES
      NO
    }

    interface Node {
      id: ID!
      one: BasicObject!
    }

    interface BasicInterface {
      zeroScalar: String!
      oneObject: BasicObject!
    }

    type BasicObject implements Node & BasicInterface {
      id: ID!
      one: BasicObject!
      zeroScalar: String!
      zeroEnum: BasicEnum!
      oneObject: BasicObject!
      twoScalar: String! @cost(weight: "2.0")
      twoEnum: BasicEnum! @cost(weight: "2.0")
      twoObject: BasicObject! @cost(weight: "2.0")
    }

    union BasicUnion = BasicObject

    type Query {
      zeroScalar: String!
      zeroEnum: BasicEnum!
      oneObject: BasicObject!
      oneInterface: BasicInterface!
      oneUnion: BasicUnion!
      twoScalar: String! @cost(weight: "2.0")
      twoEnum: BasicEnum! @cost(weight: "2.0")
      fiveScalar: String! @cost(weight: "5.0")
      fiveEnum: BasicEnum! @cost(weight: "5.0")
      fiveBasicObject: BasicObject! @cost(weight: "5.0")

      node(id: ID!): Node

      zeroScalarList: [String!]!
      zeroEnumList: [BasicEnum!]!
      oneObjectList: [BasicObject!]!
      fiveObjectList: [BasicObject!]! @cost(weight: "5.0")

      oneObjectConnection(first: Int!, last: Int!): BasicObjectConnection @cost(weight: "1.0", kind: "connection")
      twoObjectConnection(first: Int!, last: Int!): BasicObjectConnection @cost(weight: "2.0", kind: "connection")
    }

    type PageInfo {
        hasNextPage: Boolean!
        hasPreviousPage: Boolean!
    }

    type BasicObjectEdge {
        cursor: String!
        node: BasicObject!
    }

    type BasicObjectConnection {
        edges: [BasicObjectEdge!]! @cost(weight: "0.0")
        nodes: [BasicObject!]!
        pageInfo: PageInfo! @cost(weight: "0.0")
    }

    type Comment {
        body: String!
    }

    interface HasComments {
      comments: [Comment]!
    }

    type Product implements Node & HasComments {
        id: ID!
        one: BasicObject!
        comments: [Comment]!
    }

    type User implements Node & HasComments {
        id: ID!
        one: BasicObject!
        comments: [Comment]!
        oneObject: BasicObject!
    }

    schema {
      query: Query
    }
"#;

fn check_complexity_with_operation_name_and_variables(
    source: &str,
    operation_name: Option<&str>,
    variables: &serde_json::Value,
    expected_complexity: usize,
) {
    let schema = schema_model(COMPLEXITY_SCHEMA);
    let document = document_model(source);
    let variables = variable_values(variables);
    let name = operation_name.map(str::to_string);
    let index = Orchestrator::resolve_operation(&document, name.as_ref()).ok().unwrap();
    let cost_computer = RelayCostComputer {
        operation_definition: &document.operation_definitions[index],
        schema_definition: &schema,
        variable_values: &variables,
    };
    let complexity =
        ComplexityCost::analyze(&document, &schema, name.as_ref(), &variables, cost_computer)
            .ok()
            .unwrap();
    assert_eq!(complexity, expected_complexity);
}

fn check_complexity_with_operation_name(
    source: &str,
    operation_name: Option<&str>,
    expected_complexity: usize,
) {
    check_complexity_with_operation_name_and_variables(
        source,
        operation_name,
        &json(r#"{}"#),
        expected_complexity,
    )
}

fn check_complexity_with_variables(
    source: &str,
    variables: serde_json::Value,
    expected_complexity: usize,
) {
    check_complexity_with_operation_name_and_variables(source, None, &variables, expected_complexity)
}

fn check_complexity(source: &str, expected_complexity: usize) {
    check_complexity_with_operation_name_and_variables(source, None, &json(r#"{}"#), expected_complexity)
}

#[test]
fn basic_cost_metrics() {
    check_complexity(r#"{ zeroScalar }"#, 0);
    check_complexity(r#"{ zeroEnum }"#, 0);
    check_complexity(r#"{ oneObject { zeroScalar } }"#, 1);
    check_complexity(r#"{ oneInterface { zeroScalar } }"#, 1);
    check_complexity(r#"{ oneUnion { ...on BasicObject { zeroScalar } } }"#, 1);
}

#[test]
fn basic_list_cost_metrics() {
    check_complexity(r#"{ zeroScalarList }"#, 0);
    check_complexity(r#"{ zeroEnumList }"#, 0);
    check_complexity(r#"{ oneObjectList { zeroScalar } }"#, 1);
    check_complexity(r#"{ fiveObjectList { zeroScalar } }"#, 5);
}

#[test]
fn basic_cost_metrics_nested() {
    check_complexity(
        r#"{
      oneObject { # 1 + 4 = 5
        oneObject { oneObject { zeroEnum twoScalar } } # 1 + 1 + 0 + 2 = 4
      }
    }"#,
        5,
    );
}

#[test]
fn field_cost_metrics() {
    check_complexity(r#"{ fiveScalar }"#, 5);
    check_complexity(r#"{ fiveEnum }"#, 5);
    check_complexity(r#"{ fiveBasicObject { zeroScalar } }"#, 5);
}

#[test]
fn field_cost_metrics_nested() {
    check_complexity(
        r#"query { # 5 + 5 + 9 = 19
      fiveScalar # 5
      fiveEnum # 5
      fiveBasicObject { # 5 + 4 = 9
        twoObject { # 2 + 2 = 4
          twoScalar
        }
      }
    }"#,
        19,
    );
}

#[test]
fn active_operation_name() {
    check_complexity_with_operation_name(
        r#"
      query { fiveScalar }
    "#,
        None,
        5,
    );

    check_complexity_with_operation_name(
        r#"
      query Test { fiveScalar }
    "#,
        None,
        5,
    );

    check_complexity_with_operation_name(
        r#"
        query Test1 { twoScalar }
        query Test2 { fiveScalar }
    "#,
        Some("Test1"),
        2,
    );
}

#[test]
fn gracefully_handles_invalid_fields_and_fragment_types() {
    check_complexity(
        r#"{
        bogusField
        ...on BogusType { bogusField }
        ...BogusSpread
        fiveScalar
    }"#,
        5,
    );
}

#[test]
fn fragment_definitions() {
    check_complexity(
        r#"
      query { # 3 + 7 = 10
        oneObject { ...Attrs } # 1 + 2 = 3
        fiveBasicObject { ...Attrs } # 5 + 2 = 7
      }
      fragment Attrs on BasicObject {
        twoObject { zeroScalar } # 2 + 0 = 2
      }
    "#,
        10,
    );
}

#[test]
fn skip_and_include_fields_with_bool_literals() {
    check_complexity(
        r#"query { # 1 + 7 = 8
        oneObject { zeroScalar } # 1 + 0 = 1
        fiveBasicObject @skip(if: false) { twoScalar } # (5 + 2) * 1 = 7
    }"#,
        8,
    );

    check_complexity(
        r#"query { # 1 + 0 = 1
        oneObject { zeroScalar } # 1 + 0 = 1
        fiveBasicObject @skip(if: true) { twoScalar } # (5 + 0) * 0 = 0
    }"#,
        1,
    );

    check_complexity(
        r#"query {
        oneObject { zeroScalar }
        fiveBasicObject @include(if: false) { twoScalar }
    }"#,
        1,
    );

    check_complexity(
        r#"query {
        oneObject { zeroScalar }
        fiveBasicObject @include(if: true) { twoScalar }
    }"#,
        8,
    );
}

#[test]
fn skip_and_include_fields_with_variables() {
    check_complexity_with_variables(
        r#"query($enabled: Boolean) {
        oneObject { zeroScalar }
        fiveBasicObject @skip(if: $enabled) { twoScalar }
    }"#,
        json(r#"{ "enabled": false }"#),
        8,
    );

    check_complexity_with_variables(
        r#"query($enabled: Boolean) {
        oneObject { zeroScalar }
        fiveBasicObject @skip(if: $enabled) { twoScalar }
    }"#,
        json(r#"{ "enabled": true }"#),
        1,
    );

    check_complexity_with_variables(
        r#"query($enabled: Boolean) {
        oneObject { zeroScalar }
        fiveBasicObject @include(if: $enabled) { twoScalar }
    }"#,
        json(r#"{ "enabled": false }"#),
        1,
    );

    check_complexity_with_variables(
        r#"query($enabled: Boolean) {
        oneObject { zeroScalar }
        fiveBasicObject @include(if: $enabled) { twoScalar }
    }"#,
        json(r#"{ "enabled": true }"#),
        8,
    );
}

#[test]
fn skip_and_include_fields_with_default_variables() {
    check_complexity(
        r#"query($enabled: Boolean = false) {
        oneObject { zeroScalar }
        fiveBasicObject @skip(if: $enabled) { twoScalar }
    }"#,
        8,
    );

    check_complexity(
        r#"query($enabled: Boolean = true) {
        oneObject { zeroScalar }
        fiveBasicObject @skip(if: $enabled) { twoScalar }
    }"#,
        1,
    );
}

#[test]
fn skip_and_include_inline_fragments_with_bool_literals() {
    check_complexity(
        r#"query {
        oneObject { zeroScalar }
        ... @skip(if: false) { fiveBasicObject { twoScalar } }
    }"#,
        8,
    );

    check_complexity(
        r#"query {
        oneObject { zeroScalar }
        ... @skip(if: true) { fiveBasicObject { twoScalar } }
    }"#,
        1,
    );

    check_complexity(
        r#"query {
        oneObject { zeroScalar }
        ... @include(if: false) { fiveBasicObject { twoScalar } }
    }"#,
        1,
    );

    check_complexity(
        r#"query {
        oneObject { zeroScalar }
        ... @include(if: true) { fiveBasicObject { twoScalar } }
    }"#,
        8,
    );
}

#[test]
fn skip_and_include_fragment_spreads_with_bool_literals() {
    check_complexity(
        r#"
        fragment Stuff on Query { fiveBasicObject { twoScalar } }
        query {
            oneObject { zeroScalar }
            ... Stuff @skip(if: false)
        }
    "#,
        8,
    );

    check_complexity(
        r#"
        fragment Stuff on Query { fiveBasicObject { twoScalar } }
        query {
            oneObject { zeroScalar }
            ... Stuff @skip(if: true)
        }
    "#,
        1,
    );

    check_complexity(
        r#"
        fragment Stuff on Query { fiveBasicObject { twoScalar } }
        query {
            oneObject { zeroScalar }
            ... Stuff @include(if: false)
        }
    "#,
        1,
    );

    check_complexity(
        r#"
        fragment Stuff on Query { fiveBasicObject { twoScalar } }
        query {
            oneObject { zeroScalar }
            ... Stuff @include(if: true)
        }
    "#,
        8,
    );
}

#[test]
fn skip_and_include_fragments_with_variables() {
    check_complexity_with_variables(
        r#"query($enabled: Boolean) {
        oneObject { zeroScalar }
        ... @skip(if: $enabled) { fiveBasicObject { twoScalar } }
    }"#,
        json(r#"{ "enabled": false }"#),
        8,
    );

    check_complexity_with_variables(
        r#"query($enabled: Boolean) {
        oneObject { zeroScalar }
        ... @skip(if: $enabled) { fiveBasicObject { twoScalar } }
    }"#,
        json(r#"{ "enabled": true }"#),
        1,
    );

    check_complexity_with_variables(
        r#"
        fragment Stuff on Query { fiveBasicObject { twoScalar } }
        query($enabled: Boolean) {
            oneObject { zeroScalar }
            ... Stuff @include(if: $enabled)
        }
    "#,
        json(r#"{ "enabled": false }"#),
        1,
    );

    check_complexity_with_variables(
        r#"
        fragment Stuff on Query { fiveBasicObject { twoScalar } }
        query($enabled: Boolean) {
            oneObject { zeroScalar }
            ... Stuff @include(if: $enabled)
        }
    "#,
        json(r#"{ "enabled": true }"#),
        8,
    );
}

#[test]
fn skip_and_include_fragments_with_default_variables() {
    check_complexity(
        r#"query($enabled: Boolean = false) {
        oneObject { zeroScalar }
        ... @skip(if: $enabled) { fiveBasicObject { twoScalar } }
    }"#,
        8,
    );

    check_complexity(
        r#"query($enabled: Boolean = true) {
        oneObject { zeroScalar }
        ... @skip(if: $enabled) { fiveBasicObject { twoScalar } }
    }"#,
        1,
    );
}

#[test]
fn skipped_paths_still_cost_when_revisited() {
    check_complexity(
        r#"{
        oneObjectConnection(first: 7) { # 1 + 0 = 1
          edges @skip(if: true) { node { twoScalar } } # skip = 0
        }
        oneObjectConnection(first: 7) { # 0 + (3 * floor(2 * log(7))) = 9
          edges { node { twoScalar } } # (0 + 1 + 2) = 3
        }
    }"#,
        10,
    );
}

#[test]
fn connection_with_slicing_arguments_and_sized_fields() {
    check_complexity(
        r#"{
        oneObjectConnection(first: 7) { # 1 + (3 + 3) * floor(2 * log(7))) = 19
          edges { node { zeroScalar twoScalar } } # (0 + 1 + 0 + 2) = 3
          nodes { zeroScalar twoScalar } # (1 + 0 + 2) = 3
          pageInfo { hasNextPage } # 0
        }
    }"#,
        19,
    );
}

#[test]
fn connection_with_slicing_arguments_using_variables() {
    check_complexity_with_variables(
        r#"query($first: Int) {
        oneObjectConnection(first: $first) { # 1 + (3 + 3) * floor(2 * log(7))) = 19
          edges { node { zeroScalar twoScalar } } # (0 + 1 + 0 + 2) = 3
          nodes { zeroScalar twoScalar } # (1 + 0 + 2) = 3
          pageInfo { hasNextPage } # 0
        }
    }"#,
        json(r#"{ "first": 7 }"#),
        19,
    );
}

#[test]
fn connection_with_slicing_arguments_using_default_variables() {
    check_complexity(
        r#"query($first: Int = 7) {
        oneObjectConnection(first: $first) { # 1 + (3 + 3) * floor(2 * log(7))) = 19
          edges { node { zeroScalar twoScalar } } # (0 + 1 + 0 + 2) = 3
          nodes { zeroScalar twoScalar } # (1 + 0 + 2) = 3
          pageInfo { hasNextPage } # 0
        }
    }"#,
        19,
    );
}

#[test]
fn connection_with_multiple_slicing_arguments_uses_max() {
    check_complexity(
        r#"query($last: Int = 0, $first: Int = 7) {
        oneObjectConnection(last: $last, first: $first) { # 1 + 3 * floor(2 * log(7))) = 10
          edges { node { twoScalar } } # (0 + 1 + 2) = 3
        }
    }"#,
        10,
    );

    check_complexity(
        r#"query($first: Int = 7, $last: Int) {
        oneObjectConnection(first: $first, last: $last) { # 1 + 3 * floor(2 * log(7))) = 10
          edges { node { twoScalar } } # (0 + 1 + 2) = 3
        }
    }"#,
        10,
    );

    check_complexity(
        r#"query($first: Int = 7) {
        oneObjectConnection(first: $first, last: null) { # 1 + 3 * floor(2 * log(7))) = 10
          edges { node { twoScalar } } # (0 + 1 + 2) = 3
        }
    }"#,
        10,
    );
}

#[test]
fn connection_with_slicing_arguments_and_sized_fields_via_inline_fragment() {
    check_complexity(
        r#"
        query {
            oneObjectConnection(first: 7) { # 1 + (3 + 3) * floor(2 * log(7))) = 19
              ...on BasicObjectConnection {
                edges { node { zeroScalar twoScalar } } # (1 + 0 + 0 + 2) = 3
                ...on BasicObjectConnection {
                    nodes { zeroScalar twoScalar } # (1 + 0 + 2) = 3
                }
              }
              pageInfo { hasNextPage } # 0
            }
        }
    "#,
        19,
    );
}

#[test]
fn connection_with_slicing_arguments_and_sized_fields_via_fragment_spread() {
    check_complexity(
        r#"
        query { # 19 + 13 = 32
            seven: oneObjectConnection(first: 7) { # 1 + (3 + 3) * floor(2 * log(7))) = 19
              ...ConnectionAttrs
              pageInfo { hasNextPage } # 0
            }
            three: oneObjectConnection(first: 3) { # 1 + (3 + 3) * floor(2 * log(3))) = 13
              ...ConnectionAttrs
              pageInfo { hasNextPage } # 0
            }
        }
        fragment ConnectionAttrs on BasicObjectConnection {
            edges { node { zeroScalar twoScalar } } # (0 + 1 + 0 + 2) = 3
            ...ConnectionNodeAttrs
        }
        fragment ConnectionNodeAttrs on BasicObjectConnection {
            nodes { zeroScalar twoScalar } # (1 + 0 + 2) = 3
        }
    "#,
        32,
    );
}

#[test]
fn zero_and_negative_multipliers_are_zero() {
    check_complexity(
        r#"{
        oneObjectConnection(first: 0) { # 1 + (3 * 0) = 1
          edges { node { twoScalar } } # (0 + 1 + 2) = 3
        }
    }"#,
        1,
    );

    check_complexity(
        r#"{
        oneObjectConnection(first: -7) { # 1 + (3 * 0) = 1
          edges { node { twoScalar } } # (0 + 1 + 2) = 3
        }
    }"#,
        1,
    );
}

#[test]
fn connection_with_base_cost() {
    check_complexity(
        r#"{
        twoObjectConnection(first: 7) { # 2 + 3 * floor(2 * log(7))) = 11
          edges { node { zeroScalar twoScalar } } # (0 + 1 + 0 + 2) = 3
        }
    }"#,
        11,
    );
}

#[test]
fn connection_with_skipped_sized_fields() {
    check_complexity(
        r#"{
        oneObjectConnection(first: 7) { # 1 + 3 * floor(2 * log(7))) = 10
          edges @skip(if: true) { node { zeroScalar twoScalar } } # (0 + 1 + 0 + 2) * 0 = 0
          nodes { zeroScalar twoScalar } # (1 + 0 + 2) = 3
          pageInfo { hasNextPage } # 0
        }
    }"#,
        10,
    );
}

#[test]
fn basic_overlapping_field_paths_only_cost_once() {
    check_complexity(
        r#"{ # 3 + 2 = 5
        oneObject { twoScalar } # 1 + 2 = 3
        oneObject { twoEnum } # 0 + 2 = 2
    }"#,
        5,
    );
}

#[test]
fn overlapping_field_paths_with_multipliers_only_cost_once() {
    check_complexity(
        r#"{
        twoObjectConnection(first: 7) { # 2 + (3 + 2 + 3) * floor(2 * log(7))) = 26
          ...EdgesOnly
          ...EdgesAndNodes
        }
    }
    fragment EdgesOnly on BasicObjectConnection {
      edges { node { twoScalar } } # 0 + 1 + 2 = 3
    }
    fragment EdgesAndNodes on BasicObjectConnection {
      edges { node { twoScalar twoEnum } } # X + X + X + 2 = 2
      nodes { twoScalar } # 1 + 2 = 3
    }"#,
        26,
    );
}

#[test]
fn performs_inline_traversal_of_fragment_spreads() {
    check_complexity(
        r#"{
        node(id: "1") { # 1 + max(1, 3) = 4
            ...OnAbstract
            ...OnConcrete
        }
    }
    fragment OnAbstract on BasicInterface { # 1
      oneObject { zeroScalar } # 1
    }
    fragment OnConcrete on BasicObject { # 2 + 1 from BasicInterface = 3
      twoObject { zeroScalar } # 2
    }"#,
        4,
    );
}

#[test]
fn abstract_scope_uses_max_fragment_cost() {
    check_complexity(
        r#"{
      node(id: "r2d2c3p0") { # 1 + max(1, 4, 2, 1) = 5
        id
        ...on Node { # 1
          one { zeroScalar }
        }
        ...on Product { # 2 + HasComments = 3
          featuredImage: one { zeroScalar }
          featuredMedia: one { zeroScalar }
        }
        ...on User { # 1 + HasComments = 2
          companyContactProfiles: one { zeroScalar }
        }
        ...on HasComments { # 1 = 1
          comments { body }
        }
      }
    }"#,
        5,
    );
}

#[test]
fn nested_abstract_scopes_merge_possible_costs() {
    check_complexity(
        r#"{
      node(id: "r2d2c3p0") { # 1 + max(3, 3) = 4
        ... {
          ...on Product {
            product1: one { zeroScalar }
            product2: one { zeroScalar }
          }
          ...on User {
            user1: one { zeroScalar }
          }
        }
        ...on Product {
          product3: one { zeroScalar }
        }
        ...on User {
          user2: one { zeroScalar }
          user3: one { zeroScalar }
        }
      }
    }"#,
        4,
    );
}

#[test]
fn overlapping_abstract_scopes_merge_possible_costs() {
    check_complexity(
        r#"{
      node(id: "r2d2c3p0") { # 1 + max(3, 2, 2) = 4
        ...on Product { # 1 + 1 + 1 = 3
          product1: one { zeroScalar } # 1
          product2: one { zeroScalar } # 1
        }
        ...on User { # 1 + 1 = 2
          user2: one { zeroScalar } # 1
          user3: one { zeroScalar } # 1
        }
      }
      node(id: "r2d2c3p0") { # overlapping scope
        ...on Product { # overlapping scope
          product2: one { zeroScalar } # 0
          product3: one { zeroScalar } # 1
        }
        ...on BasicObject { # 1 + 1 = 2
          basic1: one { zeroScalar } # 1
          basic2: one { zeroScalar } # 1
        }
      }
    }"#,
        4,
    );
}

#[test]
fn does_not_traverse_recursive_fragment_cycles() {
    check_complexity(
        r#"
      query {
        node(id: "r2d2c3p0") { ...Alpha }
      }
      fragment Alpha on Product {
        a: one { zeroScalar }
        ...Bravo
      }
      fragment Bravo on Product {
        b: one { zeroScalar }
        ...Alpha
      }
    "#,
        3,
    );
}

#[test]
fn skips_valid_typed_selections_under_invalid_paths() {
    check_complexity(
        r#"
      query {
        validScope: oneObject {
          invalidScope {
            ...on Product {
              validScope: one { id }
            }
          }
        }
      }
    "#,
        1,
    );
}

#[test]
fn checked_complexity_agrees_and_refuses_fields_below_leaves() {
    let schema = schema_model(COMPLEXITY_SCHEMA);
    let variables = variable_values(&json(r#"{}"#));
    let document = document_model("{ oneObject { twoScalar } fiveScalar }");
    let computer = RelayCostComputer {
        operation_definition: &document.operation_definitions[0],
        schema_definition: &schema,
        variable_values: &variables,
    };
    let checked = ComplexityCost::analyze_checked(&document, &schema, None, &variables, computer);
    let computer = RelayCostComputer {
        operation_definition: &document.operation_definitions[0],
        schema_definition: &schema,
        variable_values: &variables,
    };
    let plain = ComplexityCost::analyze(&document, &schema, None, &variables, computer);
    assert_eq!(checked.ok().unwrap(), Some(plain.ok().unwrap()));
    let below_leaf = document_model("{ zeroScalar { ... on BasicObject { oneObject { zeroScalar } } } }");
    let computer = RelayCostComputer {
        operation_definition: &below_leaf.operation_definitions[0],
        schema_definition: &schema,
        variable_values: &variables,
    };
    let checked = ComplexityCost::analyze_checked(&below_leaf, &schema, None, &variables, computer);
    assert_eq!(checked.ok().unwrap(), None);
}

#[test]
fn page_counts_of_static_sizes() {
    let literal = |s: &str| IntegerValue::Literal(s.to_string());
    assert_eq!(page_count(&literal("-3")), PageCount::Zero);
    assert_eq!(page_count(&literal("-0")), PageCount::Zero);
    assert_eq!(page_count(&literal("0")), PageCount::Zero);
    assert_eq!(page_count(&literal("1")), PageCount::Pages(2));
    assert_eq!(page_count(&literal("10")), PageCount::Pages(10));
    assert_eq!(page_count(&literal("99999999999999999999")), PageCount::Unbounded);
    assert_eq!(page_count(&IntegerValue::Signed(-1)), PageCount::Zero);
    assert_eq!(page_count(&IntegerValue::Unsigned(5)), PageCount::Pages(5));
}

#[test]
fn walk_visits_variable_definitions_last_in_order() {
    let schema = schema_model(DEPTH_SCHEMA);
    let document = document_model(
        r#"query Q($a: Boolean = true, $b: Boolean = false) { thing @include(if: $a) { id } ping }"#,
    );
    let variables = variable_values(&json(r#"{}"#));
    let operation = &document.operation_definitions[0];
    let events = Orchestrator::walk(&document, &schema, operation, &variables);
    let names: Vec<String> = events
        .iter()
        .map(|e| match e {
            Event::VisitField { field, .. } => format!("visit {}", field.name),
            Event::LeaveField { field, .. } => format!("leave {}", field.name),
            Event::VisitArgument { argument, .. } => format!("argument {}", argument.name),
            Event::VisitVariableDefinition { variable_definition } => {
                format!("variable {}", variable_definition.variable)
            }
        })
        .collect();
    assert_eq!(
        names,
        vec![
            "visit thing",
            "argument if",
            "visit id",
            "leave id",
            "leave thing",
            "visit ping",
            "leave ping",
            "variable a",
            "variable b",
        ]
    );
}
