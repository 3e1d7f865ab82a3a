use bluejay_validator::definition::error::Error as DefinitionError;
use bluejay_validator::definition::validator::validate as validate_schema;
use bluejay_validator::document::{
    ExecutableDocument, Field, FragmentDefinition, FragmentSpread, InlineFragment,
    OperationDefinition, OperationType, Selection, VariableDefinition,
};
use bluejay_validator::definition::report::error_report as schema_error_report;
use bluejay_validator::executable::document::error::Error;
use bluejay_validator::executable::document::report::error_report;
use bluejay_validator::report::{Annotation, ErrorReport};
use bluejay_validator::executable::document::rules::all_variable_usages_allowed::all_variable_usages_allowed;
use bluejay_validator::executable::document::rules::all_variables_used::all_variables_used;
use bluejay_validator::executable::document::rules::argument_uniqueness::argument_uniqueness;
use bluejay_validator::executable::document::rules::directives_are_defined::directives_are_defined;
use bluejay_validator::executable::document::rules::directives_are_in_valid_locations::directives_are_in_valid_locations;
use bluejay_validator::executable::document::rules::field_selection_merging::equality::{
    arguments_equal, values_equal,
};
use bluejay_validator::executable::document::rules::field_selection_merging::field_selection_merging;
use bluejay_validator::executable::document::rules::field_selections::field_selections;
use bluejay_validator::executable::document::rules::fragment_spread_is_possible::fragment_spread_is_possible;
use bluejay_validator::executable::document::rules::fragment_spread_target_defined::fragment_spread_target_defined;
use bluejay_validator::executable::document::rules::fragment_spreads_must_not_form_cycles::fragment_spreads_must_not_form_cycles;
use bluejay_validator::executable::document::rules::fragments_must_be_used::fragments_must_be_used;
use bluejay_validator::executable::document::rules::lone_anonymous_operation::lone_anonymous_operation;
use bluejay_validator::executable::document::rules::named_operation_name_uniqueness::named_operation_name_uniqueness;
use bluejay_validator::executable::document::rules::subscription_operation_single_root_field::subscription_operation_single_root_field;
use bluejay_validator::executable::document::rules::variable_uniqueness::variable_uniqueness;
use bluejay_validator::executable::document::validator::validate;
use bluejay_validator::executable::operation::orchestrator::{Orchestrator, OperationResolutionError};
use bluejay_validator::integer::{is_valid_integer_literal, IntegerValue};
use bluejay_validator::names::{sort_names, unique_names};
use bluejay_validator::schema::{
    DirectiveDefinition, DirectiveLocation, EnumValueDefinition, FieldDefinition,
    InputValueDefinition, SchemaDefinition, TypeDefinition, TypeDefinitionKind, TypeReference,
};
use bluejay_validator::value::{Argument, Directive, Span, Value};

// A small reader for the GraphQL documents and schemas of these tests.

#[derive(Clone, Debug, PartialEq)]
enum Token {
    Punct(char),
    Spread,
    Name(String),
    Int(String),
    Float(String),
    Str(String),
}

fn tokenize(source: &str) -> (Vec<Token>, Vec<(usize, usize)>) {
    let chars: Vec<char> = source.chars().collect();
    let mut tokens = Vec::new();
    let mut spans = Vec::new();
    let mut i = 0;
    while i < chars.len() {
        let start = i;
        let count = tokens.len();
        tokenize_one(&chars, &mut i, &mut tokens);
        if tokens.len() > count {
            spans.push((start, i));
        }
    }
    (tokens, spans)
}

fn tokenize_one(chars: &[char], index: &mut usize, tokens: &mut Vec<Token>) {
    let mut i = *index;
    {
        let c = chars[i];
        if c.is_whitespace() || c == ',' {
            i += 1;
        } else if c == '#' {
            while i < chars.len() && chars[i] != '\n' {
                i += 1;
            }
        } else if c == '.' {
            assert!(chars[i + 1] == '.' && chars[i + 2] == '.');
            tokens.push(Token::Spread);
            i += 3;
        } else if "{}()[]:=@$!|&".contains(c) {
            tokens.push(Token::Punct(c));
            i += 1;
        } else if c == '"' {
            let mut text = String::new();
            i += 1;
            while chars[i] != '"' {
                if chars[i] == '\\' {
                    i += 1;
                }
                text.push(chars[i]);
                i += 1;
            }
            i += 1;
            tokens.push(Token::Str(text));
        } else if c == '-' || c.is_ascii_digit() {
            let start = i;
            i += 1;
            let mut float = false;
            while i < chars.len()
                && (chars[i].is_ascii_digit() || ".eE+-".contains(chars[i]))
            {
                if !chars[i].is_ascii_digit() {
                    float = true;
                }
                i += 1;
            }
            let text: String = chars[start..i].iter().collect();
            tokens.push(if float { Token::Float(text) } else { Token::Int(text) });
        } else if c == '_' || c.is_ascii_alphabetic() {
            let start = i;
            while i < chars.len() && (chars[i] == '_' || chars[i].is_ascii_alphanumeric()) {
                i += 1;
            }
            tokens.push(Token::Name(chars[start..i].iter().collect()));
        } else {
            panic!("unexpected character {c}");
        }
    }
    *index = i;
}

struct Reader {
    tokens: Vec<Token>,
    spans: Vec<(usize, usize)>,
    position: usize,
}

impl Reader {
    fn new(source: &str) -> Reader {
        let (tokens, spans) = tokenize(source);
        Reader { tokens, spans, position: 0 }
    }

    /// The span of the token read last.
    fn last_span(&self) -> Span {
        let (start, end) = self.spans[self.position - 1];
        Span { start, end }
    }

    /// The span from the start of token `first` to the end of the token read last.
    fn span_from(&self, first: usize) -> Span {
        Span { start: self.spans[first].0, end: self.spans[self.position - 1].1 }
    }

    fn peek(&self) -> Option<&Token> {
        self.tokens.get(self.position)
    }

    fn next(&mut self) -> Token {
        let t = self.tokens[self.position].clone();
        self.position += 1;
        t
    }

    fn at_punct(&self, c: char) -> bool {
        self.peek() == Some(&Token::Punct(c))
    }

    fn at_name(&self, n: &str) -> bool {
        self.peek() == Some(&Token::Name(n.to_string()))
    }

    fn eat_punct(&mut self, c: char) -> bool {
        if self.at_punct(c) {
            self.position += 1;
            true
        } else {
            false
        }
    }

    fn expect_punct(&mut self, c: char) {
        assert!(self.eat_punct(c), "expected {c} at token {}", self.position);
    }

    fn name(&mut self) -> String {
        match self.next() {
            Token::Name(n) => n,
            t => panic!("expected a name, found {t:?}"),
        }
    }

    fn value(&mut self) -> Value {
        match self.next() {
            Token::Punct('$') => Value::Variable(self.name()),
            Token::Int(text) => Value::Integer(IntegerValue::Literal(text)),
            Token::Float(text) => Value::Float(text),
            Token::Str(text) => Value::String(text),
            Token::Name(n) => match n.as_str() {
                "true" => Value::Boolean(true),
                "false" => Value::Boolean(false),
                "null" => Value::Null,
                _ => Value::Enum(n),
            },
            Token::Punct('[') => {
                let mut items = Vec::new();
                while !self.eat_punct(']') {
                    items.push(self.value());
                }
                Value::List(items)
            }
            Token::Punct('{') => {
                let mut entries = Vec::new();
                while !self.eat_punct('}') {
                    let key = self.name();
                    self.expect_punct(':');
                    entries.push((key, self.value()));
                }
                Value::Object(entries)
            }
            t => panic!("unexpected token in value: {t:?}"),
        }
    }

    fn arguments(&mut self) -> Vec<Argument> {
        let mut arguments = Vec::new();
        if self.eat_punct('(') {
            while !self.eat_punct(')') {
                let name = self.name();
                let name_span = self.last_span();
                self.expect_punct(':');
                arguments.push(Argument { name, value: self.value(), name_span });
            }
        }
        arguments
    }

    fn directives(&mut self) -> Vec<Directive> {
        let mut directives = Vec::new();
        while self.eat_punct('@') {
            let first = self.position - 1;
            let name = self.name();
            let name_span = self.last_span();
            let arguments = self.arguments();
            directives.push(Directive { name, arguments, name_span, span: self.span_from(first) });
        }
        directives
    }

    fn type_reference(&mut self) -> TypeReference {
        let t = if self.eat_punct('[') {
            let inner = self.type_reference();
            self.expect_punct(']');
            TypeReference::List { inner: Box::new(inner), required: false }
        } else {
            TypeReference::Named { name: self.name(), required: false }
        };
        if self.eat_punct('!') {
            match t {
                TypeReference::List { inner, .. } => TypeReference::List { inner, required: true },
                TypeReference::Named { name, .. } => TypeReference::Named { name, required: true },
            }
        } else {
            t
        }
    }

    fn selection_set(&mut self) -> (Vec<Selection>, Span) {
        let mut selections = Vec::new();
        let first = self.position;
        self.expect_punct('{');
        while !self.eat_punct('}') {
            if self.peek() == Some(&Token::Spread) {
                let spread = self.position;
                self.next();
                if self.at_name("on") {
                    self.next();
                    let type_condition = Some(self.name());
                    let directives = self.directives();
                    let (selection_set, selection_set_span) = self.selection_set();
                    selections.push(Selection::InlineFragment(InlineFragment {
                        type_condition,
                        directives,
                        selection_set,
                        span: self.span_from(spread),
                        selection_set_span,
                    }));
                } else if let Some(Token::Name(_)) = self.peek() {
                    let name = self.name();
                    let name_span = self.last_span();
                    let directives = self.directives();
                    selections.push(Selection::FragmentSpread(FragmentSpread { name, directives, name_span }));
                } else {
                    let directives = self.directives();
                    let (selection_set, selection_set_span) = self.selection_set();
                    selections.push(Selection::InlineFragment(InlineFragment {
                        type_condition: None,
                        directives,
                        selection_set,
                        span: self.span_from(spread),
                        selection_set_span,
                    }));
                }
            } else {
                let first_name = self.name();
                let mut name_span = self.last_span();
                let (alias, name) = if self.eat_punct(':') {
                    let name = self.name();
                    name_span = self.last_span();
                    (Some(first_name), name)
                } else {
                    (None, first_name)
                };
                let arguments = self.arguments();
                let directives = self.directives();
                let (selection_set, selection_set_span) = if self.at_punct('{') {
                    self.selection_set()
                } else {
                    (Vec::new(), name_span)
                };
                selections.push(Selection::Field(Field {
                    alias,
                    name,
                    arguments,
                    directives,
                    selection_set,
                    name_span,
                    selection_set_span,
                }));
            }
        }
        (selections, self.span_from(first))
    }

    fn input_values(&mut self, close: char) -> Vec<InputValueDefinition> {
        let mut definitions = Vec::new();
        while !self.eat_punct(close) {
            let name = self.name();
            let name_span = self.last_span();
            self.expect_punct(':');
            let type_ref = self.type_reference();
            let default_value = if self.eat_punct('=') { Some(self.value()) } else { None };
            let directives = self.directives();
            definitions.push(InputValueDefinition { name, type_ref, default_value, directives, name_span });
        }
        definitions
    }

    fn interfaces(&mut self) -> Vec<String> {
        let mut interfaces = Vec::new();
        if self.at_name("implements") {
            self.next();
            self.eat_punct('&');
            interfaces.push(self.name());
            while self.eat_punct('&') {
                interfaces.push(self.name());
            }
        }
        interfaces
    }

    fn field_definitions(&mut self) -> Vec<FieldDefinition> {
        let mut fields = Vec::new();
        self.expect_punct('{');
        while !self.eat_punct('}') {
            let name = self.name();
            let arguments = if self.eat_punct('(') { self.input_values(')') } else { Vec::new() };
            self.expect_punct(':');
            let type_ref = self.type_reference();
            let directives = self.directives();
            fields.push(FieldDefinition { name, arguments, type_ref, directives });
        }
        fields
    }
}

fn location(name: &str) -> DirectiveLocation {
    match name {
        "QUERY" => DirectiveLocation::Query,
        "MUTATION" => DirectiveLocation::Mutation,
        "SUBSCRIPTION" => DirectiveLocation::Subscription,
        "FIELD" => DirectiveLocation::Field,
        "FRAGMENT_DEFINITION" => DirectiveLocation::FragmentDefinition,
        "FRAGMENT_SPREAD" => DirectiveLocation::FragmentSpread,
        "INLINE_FRAGMENT" => DirectiveLocation::InlineFragment,
        "VARIABLE_DEFINITION" => DirectiveLocation::VariableDefinition,
        "SCHEMA" => DirectiveLocation::Schema,
        "SCALAR" => DirectiveLocation::Scalar,
        "OBJECT" => DirectiveLocation::Object,
        "FIELD_DEFINITION" => DirectiveLocation::FieldDefinition,
        "ARGUMENT_DEFINITION" => DirectiveLocation::ArgumentDefinition,
        "INTERFACE" => DirectiveLocation::Interface,
        "UNION" => DirectiveLocation::Union,
        "ENUM" => DirectiveLocation::Enum,
        "ENUM_VALUE" => DirectiveLocation::EnumValue,
        "INPUT_OBJECT" => DirectiveLocation::InputObject,
        "INPUT_FIELD_DEFINITION" => DirectiveLocation::InputFieldDefinition,
        _ => panic!("unknown directive location {name}"),
    }
}

fn builtin_directive(name: &str, argument: &str, required: bool, locations: Vec<DirectiveLocation>) -> DirectiveDefinition {
    DirectiveDefinition {
        name: name.to_string(),
        arguments: vec![InputValueDefinition {
            name: argument.to_string(),
            type_ref: TypeReference::Named {
                name: if required { "Boolean".to_string() } else { "String".to_string() },
                required,
            },
            default_value: None,
            directives: Vec::new(),
            name_span: Span { start: 0, end: 0 },
        }],
        locations,
    }
}

fn schema_model(source: &str) -> SchemaDefinition {
    let mut reader = Reader::new(source);
    let mut types = Vec::new();
    let mut directives = vec![
        builtin_directive(
            "skip",
            "if",
            true,
            vec![DirectiveLocation::Field, DirectiveLocation::FragmentSpread, DirectiveLocation::InlineFragment],
        ),
        builtin_directive(
            "include",
            "if",
            true,
            vec![DirectiveLocation::Field, DirectiveLocation::FragmentSpread, DirectiveLocation::InlineFragment],
        ),
        builtin_directive(
            "deprecated",
            "reason",
            false,
            vec![
                DirectiveLocation::FieldDefinition,
                DirectiveLocation::ArgumentDefinition,
                DirectiveLocation::InputFieldDefinition,
                DirectiveLocation::EnumValue,
            ],
        ),
    ];
    let mut query = "Query".to_string();
    let mut mutation = None;
    let mut subscription = None;
    while reader.peek().is_some() {
        let keyword = reader.name();
        match keyword.as_str() {
            "directive" => {
                reader.expect_punct('@');
                let name = reader.name();
                let arguments = if reader.eat_punct('(') { reader.input_values(')') } else { Vec::new() };
                if reader.at_name("repeatable") {
                    reader.next();
                }
                assert!(reader.at_name("on"));
                reader.next();
                reader.eat_punct('|');
                let mut locations = vec![location(&reader.name())];
                while reader.eat_punct('|') {
                    locations.push(location(&reader.name()));
                }
                directives.push(DirectiveDefinition { name, arguments, locations });
            }
            "enum" => {
                let name = reader.name();
                let type_directives = reader.directives();
                reader.expect_punct('{');
                let mut values = Vec::new();
                while !reader.eat_punct('}') {
                    let value = reader.name();
                    let name_span = reader.last_span();
                    values.push(EnumValueDefinition { name: value, directives: reader.directives(), name_span });
                }
                types.push(TypeDefinition { name, kind: TypeDefinitionKind::Enum { values }, directives: type_directives });
            }
            "input" => {
                let name = reader.name();
                let type_directives = reader.directives();
                reader.expect_punct('{');
                let fields = reader.input_values('}');
                types.push(TypeDefinition { name, kind: TypeDefinitionKind::InputObject { fields }, directives: type_directives });
            }
            "type" | "interface" => {
                let name = reader.name();
                let interfaces = reader.interfaces();
                let type_directives = reader.directives();
                let fields = reader.field_definitions();
                let kind = if keyword == "type" {
                    TypeDefinitionKind::Object { fields, interfaces }
                } else {
                    TypeDefinitionKind::Interface { fields, interfaces }
                };
                types.push(TypeDefinition { name, kind, directives: type_directives });
            }
            "union" => {
                let name = reader.name();
                let type_directives = reader.directives();
                reader.expect_punct('=');
                reader.eat_punct('|');
                let mut members = vec![reader.name()];
                while reader.eat_punct('|') {
                    members.push(reader.name());
                }
                types.push(TypeDefinition { name, kind: TypeDefinitionKind::Union { members }, directives: type_directives });
            }
            "scalar" => {
                let name = reader.name();
                let type_directives = reader.directives();
                types.push(TypeDefinition { name, kind: TypeDefinitionKind::CustomScalar, directives: type_directives });
            }
            "schema" => {
                reader.expect_punct('{');
                while !reader.eat_punct('}') {
                    let operation = reader.name();
                    reader.expect_punct(':');
                    let root = reader.name();
                    match operation.as_str() {
                        "query" => query = root,
                        "mutation" => mutation = Some(root),
                        _ => subscription = Some(root),
                    }
                }
            }
            _ => panic!("unexpected definition {keyword}"),
        }
    }
    for builtin in ["String", "Int", "Float", "Boolean", "ID"] {
        types.push(TypeDefinition {
            name: builtin.to_string(),
            kind: TypeDefinitionKind::BuiltinScalar,
            directives: Vec::new(),
        });
    }
    SchemaDefinition { types, directives, query, mutation, subscription }
}

fn document_model(source: &str) -> ExecutableDocument {
    let mut reader = Reader::new(source);
    let mut operation_definitions = Vec::new();
    let mut fragment_definitions = Vec::new();
    while reader.peek().is_some() {
        if reader.at_punct('{') {
            let (selection_set, selection_set_span) = reader.selection_set();
            operation_definitions.push(OperationDefinition {
                operation_type: OperationType::Query,
                name: None,
                variable_definitions: Vec::new(),
                directives: Vec::new(),
                selection_set,
                name_span: None,
                selection_set_span,
            });
            continue;
        }
        let keyword = reader.name();
        if keyword == "fragment" {
            let name = reader.name();
            let name_span = reader.last_span();
            assert!(reader.at_name("on"));
            reader.next();
            let type_condition = reader.name();
            let directives = reader.directives();
            let (selection_set, selection_set_span) = reader.selection_set();
            fragment_definitions.push(FragmentDefinition {
                name,
                type_condition,
                directives,
                selection_set,
                name_span,
                selection_set_span,
            });
            continue;
        }
        let operation_type = match keyword.as_str() {
            "query" => OperationType::Query,
            "mutation" => OperationType::Mutation,
            _ => OperationType::Subscription,
        };
        let (name, name_span) = match reader.peek() {
            Some(Token::Name(_)) => (Some(reader.name()), Some(reader.last_span())),
            _ => (None, None),
        };
        let mut variable_definitions = Vec::new();
        if reader.eat_punct('(') {
            while !reader.eat_punct(')') {
                reader.expect_punct('$');
                let variable = reader.name();
                reader.expect_punct(':');
                let type_ref = reader.type_reference();
                let default_value = if reader.eat_punct('=') { Some(reader.value()) } else { None };
                let directives = reader.directives();
                variable_definitions.push(VariableDefinition { variable, type_ref, default_value, directives });
            }
        }
        let directives = reader.directives();
        let (selection_set, selection_set_span) = reader.selection_set();
        operation_definitions.push(OperationDefinition {
            operation_type,
            name,
            variable_definitions,
            directives,
            selection_set,
            name_span,
            selection_set_span,
        });
    }
    ExecutableDocument { operation_definitions, fragment_definitions }
}

// ---------------------------------------------------------------- describing errors

fn type_text(t: &TypeReference) -> String {
    match t {
        TypeReference::Named { name, required } => format!("{}{}", name, if *required { "!" } else { "" }),
        TypeReference::List { inner, required } => {
            format!("[{}]{}", type_text(inner), if *required { "!" } else { "" })
        }
    }
}

fn field_text(f: &Field) -> String {
    match &f.alias {
        Some(a) => format!("{}: {}", a, f.name),
        None => f.name.clone(),
    }
}

fn location_text(location: DirectiveLocation) -> &'static str {
    match location {
        DirectiveLocation::Query => "QUERY",
        DirectiveLocation::Mutation => "MUTATION",
        DirectiveLocation::Subscription => "SUBSCRIPTION",
        DirectiveLocation::Field => "FIELD",
        DirectiveLocation::FragmentDefinition => "FRAGMENT_DEFINITION",
        DirectiveLocation::FragmentSpread => "FRAGMENT_SPREAD",
        DirectiveLocation::InlineFragment => "INLINE_FRAGMENT",
        DirectiveLocation::VariableDefinition => "VARIABLE_DEFINITION",
        _ => "TYPE_SYSTEM",
    }
}

fn describe(e: &Error) -> String {
    match e {
        Error::NonUniqueOperationNames { name, operations } => {
            format!("NonUniqueOperationNames({}, {})", name, operations.len())
        }
        Error::NotLoneAnonymousOperation { anonymous_operations } => {
            format!("NotLoneAnonymousOperation({})", anonymous_operations.len())
        }
        Error::SubscriptionRootNotSingleField { operation } => {
            format!("SubscriptionRootNotSingleField({})", operation.name.clone().unwrap_or_default())
        }
        Error::FragmentDefinitionUnused { fragment_definition } => {
            format!("FragmentDefinitionUnused({})", fragment_definition.name)
        }
        Error::FragmentSpreadTargetUndefined { fragment_spread } => {
            format!("FragmentSpreadTargetUndefined({})", fragment_spread.name)
        }
        Error::FragmentSpreadCycle { fragment_definition, fragment_spread } => {
            format!("FragmentSpreadCycle({}, {})", fragment_definition.name, fragment_spread.name)
        }
        Error::NonUniqueVariableDefinitionNames { name, variable_definitions } => {
            format!("NonUniqueVariableDefinitionNames({}, {})", name, variable_definitions.len())
        }
        Error::VariableDefinitionUnused { variable_definition } => {
            format!("VariableDefinitionUnused({})", variable_definition.variable)
        }
        Error::InvalidVariableUsage { variable, variable_type, location_type } => format!(
            "InvalidVariableUsage({}, {}, {})",
            variable,
            type_text(variable_type),
            type_text(location_type)
        ),
        Error::InvalidOneOfVariableUsage { variable, variable_type, parent_type_name } => format!(
            "InvalidOneOfVariableUsage({}, {}, {})",
            variable,
            type_text(variable_type),
            parent_type_name
        ),
        Error::FieldDoesNotExistOnType { field, type_definition } => {
            format!("FieldDoesNotExistOnType({}, {})", field.name, type_definition.name)
        }
        Error::FragmentSpreadIsNotPossible { fragment_spread, parent_type } => {
            format!("FragmentSpreadIsNotPossible({}, {})", fragment_spread.name, parent_type.name)
        }
        Error::InlineFragmentSpreadIsNotPossible { inline_fragment, parent_type } => format!(
            "InlineFragmentSpreadIsNotPossible({}, {})",
            inline_fragment.type_condition.clone().unwrap_or_default(),
            parent_type.name
        ),
        Error::FieldSelectionsDoNotMergeIncompatibleTypes { field_a, field_b, selection_set, .. } => format!(
            "IncompatibleTypes({}, {}) in {}",
            field_text(field_a),
            field_text(field_b),
            selection_set.len()
        ),
        Error::FieldSelectionsDoNotMergeDifferingNames { field_a, field_b, selection_set, .. } => format!(
            "DifferingNames({}, {}) in {}",
            field_text(field_a),
            field_text(field_b),
            selection_set.len()
        ),
        Error::FieldSelectionsDoNotMergeDifferingArguments { field_a, field_b, selection_set, .. } => format!(
            "DifferingArguments({}, {}) in {}",
            field_text(field_a),
            field_text(field_b),
            selection_set.len()
        ),
        Error::DirectiveDoesNotExist { directive } => format!("DirectiveDoesNotExist({})", directive.name),
        Error::DirectiveInInvalidLocation { directive, directive_definition, location } => format!(
            "DirectiveInInvalidLocation({}, {}, {})",
            directive.name,
            directive_definition.name,
            location_text(*location)
        ),
        Error::NonUniqueArgumentNames { name, arguments } => {
            format!("NonUniqueArgumentNames({}, {})", name, arguments.len())
        }
    }
}

fn describe_all(errors: &[Error]) -> Vec<String> {
    errors.iter().map(describe).collect()
}

const SCHEMA: &str = r#"
    type Query {
      dog: Dog
      pet: Pet
      catOrDog: CatOrDog
      human: Human
      findDog(complex: ComplexInput): Dog
      booleanList(booleanListArg: [Boolean!]): Boolean
      count(n: Int): Int
      search(filter: SearchFilter): [Pet]
    }
    type Subscription {
      newMessage: Message
      disallowedSecondRootField: Boolean
    }
    type Message {
      body: String
      sender: String
    }
    enum DogCommand { SIT DOWN HEEL }
    interface Pet {
      name: String!
    }
    type Dog implements Pet {
      name: String!
      nickname: String!
      barkVolume: Int
      doesKnowCommand(dogCommand: DogCommand!): Boolean!
      isHouseTrained(atOtherHomes: Boolean): Boolean!
      owner: Human
    }
    type Cat implements Pet {
      name: String!
      nickname: String
      meowVolume: Int
    }
    union CatOrDog = Cat | Dog
    type Human {
      name: String!
      pets: [Pet!]!
    }
    input ComplexInput {
      name: String
      owner: String
    }
    input SearchFilter @oneOf {
      byName: String
      byId: ID
    }
    directive @oneOf on INPUT_OBJECT
    directive @onQuery on QUERY
    schema {
      query: Query
      subscription: Subscription
    }
"#;

fn check<F>(source: &str, rule: F, expected: &[&str])
where
    F: for<'a> Fn(&'a ExecutableDocument, &'a SchemaDefinition) -> Vec<Error<'a>>,
{
    let schema = schema_model(SCHEMA);
    let document = document_model(source);
    let errors = rule(&document, &schema);
    assert_eq!(describe_all(&errors), expected.iter().map(|s| s.to_string()).collect::<Vec<_>>());
}

// ---------------------------------------------------------------- operations

#[test]
fn operation_names_must_be_unique() {
    check(
        "query getName { dog { name } } query getName { dog { owner { name } } } query other { dog { name } }",
        |d, _| named_operation_name_uniqueness(d),
        &["NonUniqueOperationNames(getName, 2)"],
    );
    check("query a { dog { name } } query b { dog { name } }", |d, _| named_operation_name_uniqueness(d), &[]);
}

#[test]
fn anonymous_operation_must_be_alone() {
    check("{ dog { name } }", |d, _| lone_anonymous_operation(d), &[]);
    check(
        "{ dog { name } } query getName { dog { owner { name } } } { pet { name } }",
        |d, _| lone_anonymous_operation(d),
        &["NotLoneAnonymousOperation(2)"],
    );
}

#[test]
fn subscription_selects_one_root_field() {
    check("subscription sub { newMessage { body } }", |d, _| subscription_operation_single_root_field(d), &[]);
    check(
        "subscription sub { newMessage { body } disallowedSecondRootField }",
        |d, _| subscription_operation_single_root_field(d),
        &["SubscriptionRootNotSingleField(sub)"],
    );
    check(
        "subscription sub { ...multipleSubscriptions } fragment multipleSubscriptions on Subscription { newMessage { body } disallowedSecondRootField }",
        |d, _| subscription_operation_single_root_field(d),
        &["SubscriptionRootNotSingleField(sub)"],
    );
}

#[test]
fn operation_resolution_messages() {
    assert_eq!(
        OperationResolutionError::NoOperationWithName { name: "foo".to_string() }.message(),
        "No operation defined with name foo"
    );
    assert_eq!(
        OperationResolutionError::AnonymousNotEligible.message(),
        "Anonymous operation can only be used when the document contains exactly one operation definition"
    );
    let document = document_model("query a { dog { name } } query b { dog { name } }");
    match Orchestrator::resolve_operation(&document, None) {
        Err(OperationResolutionError::AnonymousNotEligible) => {}
        _ => panic!("expected the anonymous operation to be refused"),
    }
    match Orchestrator::resolve_operation(&document, Some(&"b".to_string())) {
        Ok(i) => assert_eq!(i, 1),
        Err(_) => panic!("expected operation b"),
    }
    match Orchestrator::resolve_operation(&document, Some(&"c".to_string())) {
        Err(e) => assert_eq!(e.message(), "No operation defined with name c"),
        Ok(_) => panic!("expected no operation named c"),
    }
}

// ---------------------------------------------------------------- fields

#[test]
fn fields_must_exist_on_their_type() {
    check("{ dog { name barkVolume } }", |d, s| field_selections(d, s), &[]);
    check(
        "{ dog { meowVolume name leash } }",
        |d, s| field_selections(d, s),
        &["FieldDoesNotExistOnType(meowVolume, Dog)", "FieldDoesNotExistOnType(leash, Dog)"],
    );
    check(
        "fragment petFields on Pet { name nickname } { dog { ...petFields } }",
        |d, s| field_selections(d, s),
        &["FieldDoesNotExistOnType(nickname, Pet)"],
    );
    // A union defines no fields, so nothing is checked against it.
    check("{ catOrDog { name } }", |d, s| field_selections(d, s), &[]);
}

#[test]
fn fragment_spreads_must_be_possible() {
    check("{ pet { ... on Dog { barkVolume } } }", |d, s| fragment_spread_is_possible(d, s), &[]);
    check("{ catOrDog { ... on Pet { name } } }", |d, s| fragment_spread_is_possible(d, s), &[]);
    check(
        "{ dog { ... on Cat { meowVolume } } }",
        |d, s| fragment_spread_is_possible(d, s),
        &["InlineFragmentSpreadIsNotPossible(Cat, Dog)"],
    );
    check(
        "fragment catFragment on Cat { meowVolume } { dog { ...catFragment } }",
        |d, s| fragment_spread_is_possible(d, s),
        &["FragmentSpreadIsNotPossible(catFragment, Dog)"],
    );
    check(
        "{ human { ... on Pet { name } } }",
        |d, s| fragment_spread_is_possible(d, s),
        &["InlineFragmentSpreadIsNotPossible(Pet, Human)"],
    );
}

#[test]
fn fields_with_one_response_name_must_merge() {
    check("{ dog { name name } }", |d, s| field_selection_merging(d, s), &[]);
    check(
        "{ dog { name: nickname name } }",
        |d, s| field_selection_merging(d, s),
        &["DifferingNames(name: nickname, name) in 2"],
    );
    check(
        "{ dog { doesKnowCommand(dogCommand: SIT) doesKnowCommand(dogCommand: HEEL) } }",
        |d, s| field_selection_merging(d, s),
        &["DifferingArguments(doesKnowCommand, doesKnowCommand) in 2"],
    );
    check(
        "{ dog { doesKnowCommand(dogCommand: SIT) doesKnowCommand(dogCommand: SIT) } }",
        |d, s| field_selection_merging(d, s),
        &[],
    );
    check("{ count(n: 1) count(n: 1) }", |d, s| field_selection_merging(d, s), &[]);
}

#[test]
fn fields_on_different_object_types_may_differ() {
    check(
        "{ pet { ... on Dog { volume: barkVolume } ... on Cat { volume: meowVolume } } }",
        |d, s| field_selection_merging(d, s),
        &[],
    );
    check(
        "{ pet { ... on Dog { someValue: nickname } ... on Cat { someValue: meowVolume } } }",
        |d, s| field_selection_merging(d, s),
        &["IncompatibleTypes(someValue: nickname, someValue: meowVolume) in 2"],
    );
}

#[test]
fn nested_fields_must_merge() {
    check(
        "{ dog { owner { name } owner { name: pets } } }",
        |d, s| field_selection_merging(d, s),
        &["IncompatibleTypes(name, name: pets) in 2", "DifferingNames(name, name: pets) in 2"],
    );
}

#[test]
fn conflicts_within_a_fragment_are_reported_once() {
    check(
        "fragment f on Dog { name: nickname name } { dog { ...f } }",
        |d, s| field_selection_merging(d, s),
        &["DifferingNames(name: nickname, name) in 2"],
    );
}

#[test]
fn cyclic_fragments_end_the_merge_check() {
    check(
        "fragment a on Dog { name ...b } fragment b on Dog { name ...a } { dog { ...a } }",
        |d, s| field_selection_merging(d, s),
        &[],
    );
}

#[test]
fn value_equality_follows_the_values() {
    let one = Value::Integer(IntegerValue::Literal("1".to_string()));
    let also_one = Value::Integer(IntegerValue::Signed(1));
    let two = Value::Integer(IntegerValue::Unsigned(2));
    assert!(values_equal(&one, &also_one));
    assert!(!values_equal(&one, &two));
    let a = Value::Object(vec![
        ("x".to_string(), one.clone_value()),
        ("x".to_string(), two.clone_value()),
    ]);
    let b = Value::Object(vec![("x".to_string(), Value::Integer(IntegerValue::Literal("2".to_string())))]);
    assert!(values_equal(&a, &b));
    let c = Value::Object(vec![("y".to_string(), Value::Null)]);
    assert!(!values_equal(&b, &c));
    let args_a = vec![Argument { name: "n".to_string(), value: one.clone_value(), name_span: Span { start: 0, end: 1 } }];
    let args_b = vec![Argument { name: "n".to_string(), value: also_one.clone_value(), name_span: Span { start: 2, end: 3 } }];
    assert!(arguments_equal(&args_a, &args_b));
    assert!(!arguments_equal(&args_a, &Vec::new()));
}

trait CloneValue {
    fn clone_value(&self) -> Value;
}

impl CloneValue for Value {
    fn clone_value(&self) -> Value {
        match self {
            Value::Variable(s) => Value::Variable(s.clone()),
            Value::Integer(i) => Value::Integer(match i {
                IntegerValue::Literal(s) => IntegerValue::Literal(s.clone()),
                IntegerValue::Signed(v) => IntegerValue::Signed(*v),
                IntegerValue::Unsigned(v) => IntegerValue::Unsigned(*v),
            }),
            Value::Float(s) => Value::Float(s.clone()),
            Value::String(s) => Value::String(s.clone()),
            Value::Boolean(b) => Value::Boolean(*b),
            Value::Null => Value::Null,
            Value::Enum(s) => Value::Enum(s.clone()),
            Value::List(items) => Value::List(items.iter().map(|v| v.clone_value()).collect()),
            Value::Object(entries) => {
                Value::Object(entries.iter().map(|(k, v)| (k.clone(), v.clone_value())).collect())
            }
        }
    }
}

#[test]
fn argument_names_must_be_unique() {
    check(
        "{ dog { doesKnowCommand(dogCommand: SIT, dogCommand: HEEL) } }",
        |d, s| argument_uniqueness(d, s),
        &["NonUniqueArgumentNames(dogCommand, 2)"],
    );
    check(
        "{ dog @skip(if: true, if: false) { name } }",
        |d, s| argument_uniqueness(d, s),
        &["NonUniqueArgumentNames(if, 2)"],
    );
    // A field that its type does not define is left to other rules.
    check("{ dog { leash(a: 1, a: 2) } }", |d, s| argument_uniqueness(d, s), &[]);
}

// ---------------------------------------------------------------- directives

#[test]
fn directives_must_be_defined() {
    check("{ dog @skip(if: true) { name } }", |d, s| directives_are_defined(d, s), &[]);
    check(
        "query q @unknown { dog @other { name } }",
        |d, s| directives_are_defined(d, s),
        &["DirectiveDoesNotExist(unknown)", "DirectiveDoesNotExist(other)"],
    );
}

#[test]
fn directives_must_stand_where_allowed() {
    check(
        "query q @onQuery { dog @skip(if: true) { name } }",
        |d, s| directives_are_in_valid_locations(d, s),
        &[],
    );
    check(
        "query q @skip(if: true) { dog @onQuery { name } }",
        |d, s| directives_are_in_valid_locations(d, s),
        &["DirectiveInInvalidLocation(skip, skip, QUERY)", "DirectiveInInvalidLocation(onQuery, onQuery, FIELD)"],
    );
}

// ---------------------------------------------------------------- fragments

#[test]
fn unused_fragments_are_reported() {
    check(
        "fragment used on Dog { name } fragment unused on Dog { name } { dog { ...used } }",
        |d, _| fragments_must_be_used(d),
        &["FragmentDefinitionUnused(unused)"],
    );
}

#[test]
fn fragment_spreads_must_have_targets() {
    check(
        "{ dog { ...undefinedFragment ...defined } } fragment defined on Dog { name }",
        |d, _| fragment_spread_target_defined(d),
        &["FragmentSpreadTargetUndefined(undefinedFragment)"],
    );
}

#[test]
fn fragment_spreads_must_not_cycle() {
    check(
        "{ dog { ...nameFragment } } fragment nameFragment on Dog { name ...barkVolumeFragment } fragment barkVolumeFragment on Dog { barkVolume ...nameFragment }",
        |d, _| fragment_spreads_must_not_form_cycles(d),
        &["FragmentSpreadCycle(barkVolumeFragment, barkVolumeFragment)", "FragmentSpreadCycle(nameFragment, nameFragment)"],
    );
    check(
        "{ dog { ...a } } fragment a on Dog { name ...b } fragment b on Dog { barkVolume }",
        |d, _| fragment_spreads_must_not_form_cycles(d),
        &[],
    );
}

// ---------------------------------------------------------------- variables

#[test]
fn variable_names_must_be_unique() {
    check(
        "query houseTrainedQuery($atOtherHomes: Boolean, $atOtherHomes: Boolean) { dog { isHouseTrained(atOtherHomes: $atOtherHomes) } }",
        |d, _| variable_uniqueness(d),
        &["NonUniqueVariableDefinitionNames(atOtherHomes, 2)"],
    );
}

#[test]
fn variables_must_be_used() {
    check(
        "query q($used: Boolean, $unused: Boolean) { dog { isHouseTrained(atOtherHomes: $used) } }",
        |d, _| all_variables_used(d),
        &["VariableDefinitionUnused(unused)"],
    );
    check(
        "query q($inFragment: Boolean) { dog { ...f } } fragment f on Dog { isHouseTrained(atOtherHomes: $inFragment) }",
        |d, _| all_variables_used(d),
        &[],
    );
}

#[test]
fn variable_usages_must_fit() {
    check(
        "query q($arg: Boolean!) { dog { isHouseTrained(atOtherHomes: $arg) } }",
        |d, s| all_variable_usages_allowed(d, s),
        &[],
    );
    check(
        "query q($intArg: Int) { dog { isHouseTrained(atOtherHomes: $intArg) } }",
        |d, s| all_variable_usages_allowed(d, s),
        &["InvalidVariableUsage(intArg, Int, Boolean)"],
    );
    check(
        "query q($list: [Boolean]) { booleanList(booleanListArg: $list) }",
        |d, s| all_variable_usages_allowed(d, s),
        &["InvalidVariableUsage(list, [Boolean], [Boolean!])"],
    );
    check(
        "query q($command: DogCommand) { dog { doesKnowCommand(dogCommand: $command) } }",
        |d, s| all_variable_usages_allowed(d, s),
        &["InvalidVariableUsage(command, DogCommand, DogCommand!)"],
    );
    check(
        "query q($command: DogCommand = SIT) { dog { doesKnowCommand(dogCommand: $command) } }",
        |d, s| all_variable_usages_allowed(d, s),
        &[],
    );
    check(
        "query q($name: String) { search(filter: { byName: $name }) { name } }",
        |d, s| all_variable_usages_allowed(d, s),
        &["InvalidOneOfVariableUsage(name, String, SearchFilter)"],
    );
}

#[test]
fn fragment_variable_usages_are_checked_once_per_operation() {
    check(
        "query q($v: Int) { dog { ...F } findDog { ...F } } fragment F on Dog { isHouseTrained(atOtherHomes: $v) }",
        |d, s| all_variable_usages_allowed(d, s),
        &["InvalidVariableUsage(v, Int, Boolean)"],
    );
    check(
        "query a($v: Int) { booleanList(booleanListArg: $v) dog { ...F } } \
         query b($v: Float) { dog { ...G } booleanList(booleanListArg: $v) } \
         fragment G on Dog { ...F ...F } \
         fragment F on Dog { isHouseTrained(atOtherHomes: $v) }",
        |d, s| all_variable_usages_allowed(d, s),
        &[
            "InvalidVariableUsage(v, Int, [Boolean!])",
            "InvalidVariableUsage(v, Float, [Boolean!])",
            "InvalidVariableUsage(v, Int, Boolean)",
            "InvalidVariableUsage(v, Float, Boolean)",
        ],
    );
    check(
        "query a { dog { ...F } } fragment F on Dog { isHouseTrained(atOtherHomes: $v) }",
        |d, s| all_variable_usages_allowed(d, s),
        &[],
    );
}

// ---------------------------------------------------------------- the whole document

#[test]
fn validate_reports_each_rule_in_turn() {
    check("query q { dog { name } }", |d, s| validate(d, s), &[]);
    check(
        "query q($unused: Int) { dog { leash ...missing } }",
        |d, s| validate(d, s),
        &[
            "FieldDoesNotExistOnType(leash, Dog)",
            "FragmentSpreadTargetUndefined(missing)",
            "VariableDefinitionUnused(unused)",
        ],
    );
}

fn messages(source: &str) -> Vec<String> {
    let schema = schema_model(SCHEMA);
    let document = document_model(source);
    let errors = validate(&document, &schema);
    errors.iter().map(|e| e.message()).collect()
}

#[test]
fn errors_describe_themselves() {
    assert_eq!(
        messages("query q($unused: Int) { dog { leash ...missing } }"),
        vec![
            "Field `leash` does not exist on type `Dog`",
            "No fragment defined with name `missing`",
            "Variable definition `$unused` is unused",
        ]
    );
    assert_eq!(
        messages("query a { dog { name } } query a { dog { name } }"),
        vec!["Multiple operation definitions named `a`"]
    );
    assert_eq!(
        messages("{ dog { name: nickname name } }"),
        vec!["Fields in selection set do not merge due to unequal field names"]
    );
    assert_eq!(
        messages("query q($list: [Boolean]) { booleanList(booleanListArg: $list) }"),
        vec!["Variable `$list` of type [Boolean] cannot be used where a value of type [Boolean!] is expected"]
    );
    assert_eq!(
        messages("query q { dog @nope { name } }"),
        vec!["No directive definition with name `@nope`"]
    );
    assert_eq!(
        messages("query q @skip(if: true) { dog { name } }"),
        vec!["Directive @skip cannot be used at location QUERY. It is only allowed at the following locations: FIELD, FRAGMENT_SPREAD, INLINE_FRAGMENT"]
    );
}

// ---------------------------------------------------------------- names

#[test]
fn names_sort_and_deduplicate() {
    let names: Vec<String> = ["b", "a", "ab", "b", "A"].iter().map(|s| s.to_string()).collect();
    assert_eq!(sort_names(&names), vec!["A", "a", "ab", "b"]);
    assert_eq!(unique_names(&names), vec!["b", "a", "ab", "A"]);
}

// ---------------------------------------------------------------- schema definitions

fn describe_definition(e: &DefinitionError) -> String {
    match e {
        DefinitionError::NonUniqueInputValueDefinitionNames { name, input_value_definitions } => {
            format!("NonUniqueInputValueDefinitionNames({}, {})", name, input_value_definitions.len())
        }
        DefinitionError::NonUniqueEnumValueDefinitionNames { name, enum_value_definitions } => {
            format!("NonUniqueEnumValueDefinitionNames({}, {})", name, enum_value_definitions.len())
        }
        DefinitionError::InputObjectTypeDefinitionCircularReferences {
            input_object_type_definition,
            circular_references,
        } => format!(
            "InputObjectTypeDefinitionCircularReferences({}, [{}])",
            input_object_type_definition.name,
            circular_references.iter().map(|t| type_text(t)).collect::<Vec<_>>().join(", ")
        ),
    }
}

fn check_schema(source: &str, expected: &[&str]) {
    let schema = schema_model(source);
    let errors = validate_schema(&schema);
    assert_eq!(
        errors.iter().map(describe_definition).collect::<Vec<_>>(),
        expected.iter().map(|s| s.to_string()).collect::<Vec<_>>()
    );
}

#[test]
fn schema_rules_report_in_turn() {
    check_schema(SCHEMA, &[]);
    check_schema(
        "type Query { a: Int } enum E { X Y X X } input I { a: Int b: Int a: String } input Loop { self: Loop! }",
        &[
            "NonUniqueEnumValueDefinitionNames(X, 3)",
            "NonUniqueInputValueDefinitionNames(a, 2)",
            "InputObjectTypeDefinitionCircularReferences(Loop, [Loop!])",
        ],
    );
}

#[test]
fn input_objects_must_not_require_themselves() {
    check_schema(
        "type Query { a: Int } input A { b: B! } input B { a: A! c: C } input C { a: A! }",
        &[
            "InputObjectTypeDefinitionCircularReferences(A, [A!])",
            "InputObjectTypeDefinitionCircularReferences(B, [B!])",
        ],
    );
    check_schema("type Query { a: Int } input A { list: [A!]! optional: A }", &[]);
}

// ---------------------------------------------------------------- well-formedness

#[test]
fn integer_literals_follow_the_grammar() {
    for ok in ["0", "-0", "7", "-42", "1234567890123456789012"] {
        assert!(is_valid_integer_literal(ok), "{ok}");
    }
    for bad in ["", "-", "01", "-01", "1a", "+1", "1.0", "--1"] {
        assert!(!is_valid_integer_literal(bad), "{bad}");
    }
    assert!(IntegerValue::Literal("12".to_string()).check_wf());
    assert!(!IntegerValue::Literal("012".to_string()).check_wf());
    assert!(IntegerValue::Signed(-3).check_wf());
}

#[test]
fn documents_and_schemas_check_their_wellformedness() {
    let document = document_model("query q { count(n: 3) }");
    assert!(document.check_wf());
    let mut bad = document_model("query q { count(n: 3) }");
    if let Selection::Field(f) = &mut bad.operation_definitions[0].selection_set[0] {
        f.arguments[0].value = Value::List(vec![Value::Integer(IntegerValue::Literal("00".to_string()))]);
    }
    assert!(!bad.check_wf());
    let schema = schema_model(SCHEMA);
    assert!(schema.check_wf());
    let mut no_root = schema_model(SCHEMA);
    no_root.query = "Nothing".to_string();
    assert!(!no_root.check_wf());
}

#[test]
fn schema_errors_describe_themselves() {
    let schema = schema_model(
        "type Query { a: Int } enum E { X Y X } input I { a: Int a: String } input Loop { self: Loop! }",
    );
    let errors = validate_schema(&schema);
    assert_eq!(
        errors.iter().map(|e| e.message()).collect::<Vec<_>>(),
        vec![
            "Multiple enum value definitions named `X`",
            "Multiple input value definitions named `a`",
            "Input object type `Loop` references itself through non-null fields",
        ]
    );
}

// ---------------------------------------------------------------- reports

fn annotation_text(a: &Annotation) -> (String, usize, usize) {
    (a.message.clone(), a.span.start, a.span.end)
}

fn report_text(r: &ErrorReport) -> (String, Option<(String, usize, usize)>, Vec<(String, usize, usize)>) {
    (
        r.message.clone(),
        r.primary_annotation.as_ref().map(annotation_text),
        r.secondary_annotations.iter().map(annotation_text).collect(),
    )
}

fn s(text: &str, start: usize, end: usize) -> (String, usize, usize) {
    (text.to_string(), start, end)
}

#[test]
fn merge_errors_annotate_both_fields() {
    let schema = schema_model("type Query { a: String b: Int }");
    let document = document_model("{ x: a x: b }");
    let errors = field_selection_merging(&document, &schema);
    assert_eq!(errors.len(), 2);
    assert_eq!(
        report_text(&error_report(&errors[0])),
        (
            "Fields in selection set do not merge due to incompatible types".to_string(),
            Some(s("Fields in selection set do not merge", 0, 13)),
            vec![s("First field has type String", 5, 6), s("Second field has type Int", 10, 11)],
        )
    );
    assert_eq!(
        report_text(&error_report(&errors[1])),
        (
            "Fields in selection set do not merge due to unequal field names".to_string(),
            Some(s("Fields in selection set do not merge", 0, 13)),
            vec![s("First field", 5, 6), s("Second field", 10, 11)],
        )
    );
    let document = document_model("{ x: a x: a(n: 1) }");
    let schema = schema_model("type Query { a(n: Int): String }");
    let errors = field_selection_merging(&document, &schema);
    assert_eq!(
        report_text(&error_report(&errors[0])),
        (
            "Fields in selection set do not merge due to unequal arguments".to_string(),
            Some(s("Fields in selection set do not merge", 0, 19)),
            vec![s("First field", 5, 6), s("Second field", 10, 11)],
        )
    );
}

#[test]
fn cycle_errors_annotate_the_spread_and_the_fragment() {
    let schema = schema_model(SCHEMA);
    let document = document_model("fragment A on Query { ...A }");
    let errors = fragment_spreads_must_not_form_cycles(&document);
    assert_eq!(errors.len(), 1);
    assert_eq!(
        report_text(&error_report(&errors[0])),
        (
            "Cycle detected in fragment `A`".to_string(),
            Some(s("Cycle introduced by fragment spread", 25, 26)),
            vec![s("Affected fragment definition", 9, 10)],
        )
    );
    let _ = schema;
}

#[test]
fn reports_annotate_names_and_sets() {
    let schema = schema_model(SCHEMA);
    let document = document_model("query a { dog { name } } query a { dog { leash } }");
    let errors = validate(&document, &schema);
    let reports: Vec<_> = errors.iter().map(|e| report_text(&error_report(e))).collect();
    assert_eq!(
        reports,
        vec![
            (
                "Multiple operation definitions named `a`".to_string(),
                None,
                vec![s("Operation definition with name `a`", 6, 7), s("Operation definition with name `a`", 31, 32)],
            ),
            (
                "Field `leash` does not exist on type `Dog`".to_string(),
                Some(s("Field does not exist on type `Dog`", 41, 46)),
                vec![],
            ),
        ]
    );
    let document = document_model("{ dog { name } } { pet { name } }");
    let errors = lone_anonymous_operation(&document);
    assert_eq!(
        report_text(&error_report(&errors[0])),
        (
            "Anonymous operation not lone operation in document".to_string(),
            None,
            vec![s("Anonymous operation definition", 0, 16), s("Anonymous operation definition", 17, 33)],
        )
    );
    let document = document_model("query q @skip(if: true) { dog @nope { name } }");
    let errors = validate(&document, &schema);
    let reports: Vec<_> = errors.iter().map(|e| report_text(&error_report(e))).collect();
    assert_eq!(
        reports,
        vec![
            (
                "No directive definition with name `@nope`".to_string(),
                Some(s("No directive definition with this name", 31, 35)),
                vec![],
            ),
            (
                "Directive @skip cannot be used at location QUERY. It is only allowed at the following locations: FIELD, FRAGMENT_SPREAD, INLINE_FRAGMENT".to_string(),
                Some(s("Cannot be used at location QUERY", 8, 23)),
                vec![],
            ),
        ]
    );
}

#[test]
fn schema_reports_annotate_each_definition() {
    let schema = schema_model("type Query { a: Int } enum E { X Y X }");
    let errors = validate_schema(&schema);
    assert_eq!(
        errors.iter().map(|e| report_text(&schema_error_report(e))).collect::<Vec<_>>(),
        vec![(
            "Multiple enum value definitions named `X`".to_string(),
            None,
            vec![s("Enum value definition with name `X`", 31, 32), s("Enum value definition with name `X`", 35, 36)],
        )]
    );
}
