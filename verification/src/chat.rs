//! The component model: one styled text node plus its ordered children,
//! together with the legacy-string parser and renderer.
//!
//! Contracts are stated over a ghost mirror of the tree (`ComponentV`,
//! `ContentV`, `ChatV`) in which every string is a character sequence.

use vstd::prelude::*;
use vstd::string::StrSliceExecFns;
use vstd::string::StringExecFns;

use crate::formatting::{spec_color_code, spec_color_of_code, spec_format_of_code};
use crate::formatting::{ChatColor, ChatFormat};
use crate::text::{push_char, str_chars};
use crate::translator::{spec_translate, Translator};

verus! {

/// `serde_json::Value`, declared so that pass-through hover payloads can be
/// carried opaquely inside the tree.
#[verifier::external_type_specification]
#[verifier::external_body]
pub struct ExValue(serde_json::Value);

/// Relies on `serde_json::Value::clone`, needed by the derived `Clone` of
/// [`HoverContent`]; nothing is claimed of the copy.
pub assume_specification[ <serde_json::Value as Clone>::clone ](v: &serde_json::Value) -> (r:
    serde_json::Value);

/// A scoreboard-value reference: entity name, objective name, and an
/// optional numeric override.
#[derive(Debug, Clone, PartialEq, Eq)]
pub struct Score {
    pub name: String,
    pub objective: String,
    pub value: Option<i32>,
}

/// Ghost model of a [`Score`].
pub struct ScoreV {
    pub name: Seq<char>,
    pub objective: Seq<char>,
    pub value: Option<i32>,
}

/// What happens when a rendered chat line is clicked.
#[derive(Debug, Clone, Copy, PartialEq, Eq)]
pub enum ClickAction {
    OpenUrl,
    OpenFile,
    RunCommand,
    SuggestCommand,
    ChangePage,
    CopyToClipboard,
}

/// A click-action descriptor; opaque to the core, passed through unchanged.
#[derive(Debug, Clone, PartialEq, Eq)]
pub struct ClickEvent {
    pub action: ClickAction,
    pub value: String,
}

/// Ghost model of a [`ClickEvent`].
pub struct ClickEventV {
    pub action: ClickAction,
    pub value: Seq<char>,
}

/// What a hover-action shows.
#[derive(Debug, Clone, Copy, PartialEq, Eq)]
pub enum HoverAction {
    ShowText,
    ShowItem,
    ShowEntity,
}

/// A hover payload: either plain text or an opaque structured value.
#[derive(Debug, Clone, PartialEq, Eq)]
pub enum HoverContent {
    Text(String),
    Json(serde_json::Value),
}

/// Ghost model of a [`HoverContent`].
pub enum HoverContentV {
    Text(Seq<char>),
    Json(serde_json::Value),
}

/// A hover-action descriptor; opaque to the core, passed through unchanged.
#[derive(Debug, Clone, PartialEq, Eq)]
pub struct HoverEvent {
    pub action: HoverAction,
    pub contents: HoverContent,
}

/// Ghost model of a [`HoverEvent`].
pub struct HoverEventV {
    pub action: HoverAction,
    pub contents: HoverContentV,
}

/// The content of one node: exactly one of the six variants. Decoders must
/// discriminate by field presence in this declaration order.
#[derive(Debug, PartialEq, Eq)]
pub enum TextContent {
    Translatable { translate: String, with: Option<Vec<Chat>>, fallback: Option<String> },
    Keybind { keybind: String },
    Nbt {
        nbt: String,
        interpret: bool,
        separator: Option<Box<ChatComponent>>,
        block: Option<String>,
        entity: Option<String>,
        storage: Option<String>,
    },
    EntityNamesSelector { selector: String, separator: Option<Box<ChatComponent>> },
    ScoreboardValue { score: Score },
    Literal { text: String },
}

/// Ghost model of a [`TextContent`]. An absent optional separator component
/// is the empty sequence; a present one is a singleton.
#[verifier::ext_equal]
pub enum ContentV {
    Translatable { translate: Seq<char>, with: Option<Seq<ChatV>>, fallback: Option<Seq<char>> },
    Keybind { keybind: Seq<char> },
    Nbt {
        nbt: Seq<char>,
        interpret: bool,
        separator: Seq<ComponentV>,
        block: Option<Seq<char>>,
        entity: Option<Seq<char>>,
        storage: Option<Seq<char>>,
    },
    EntityNamesSelector { selector: Seq<char>, separator: Seq<ComponentV> },
    ScoreboardValue { score: ScoreV },
    Literal { text: Seq<char> },
}

/// One styled node: a content value, five independent style flags, an
/// optional color, optional interactive metadata, and the ordered children
/// rendered after the node's own content.
#[derive(Debug, PartialEq, Eq)]
pub struct ChatComponent {
    pub content: TextContent,
    pub bold: bool,
    pub italic: bool,
    pub underlined: bool,
    pub strikethrough: bool,
    pub obfuscated: bool,
    pub color: Option<ChatColor>,
    /// Inserted into the chat prompt on shift-click.
    pub insertion: Option<String>,
    /// A custom font reference; carried, not interpreted.
    pub font: Option<String>,
    pub click_event: Option<ClickEvent>,
    pub hover_event: Option<HoverEvent>,
    pub extra: Vec<ChatComponent>,
}

/// Ghost model of a [`ChatComponent`].
#[verifier::ext_equal]
pub struct ComponentV {
    pub content: ContentV,
    pub bold: bool,
    pub italic: bool,
    pub underlined: bool,
    pub strikethrough: bool,
    pub obfuscated: bool,
    pub color: Option<ChatColor>,
    pub insertion: Option<Seq<char>>,
    pub font: Option<Seq<char>>,
    pub click_event: Option<ClickEventV>,
    pub hover_event: Option<HoverEventV>,
    pub extra: Seq<ComponentV>,
}

/// A top-level message: a bare legacy string, one component, or a sequence
/// of components rendered in order.
#[derive(Debug, PartialEq, Eq)]
pub enum Chat {
    Legacy(String),
    Component(ChatComponent),
    Components(Vec<ChatComponent>),
}

/// Ghost model of a [`Chat`].
#[verifier::ext_equal]
pub enum ChatV {
    Legacy(Seq<char>),
    Component(ComponentV),
    Components(Seq<ComponentV>),
}

/// The model of an optional owned string.
pub open spec fn view_opt_string(s: Option<String>) -> Option<Seq<char>> {
    match s {
        Some(t) => Some(t@),
        None => None,
    }
}

/// The model of a content value.
pub open spec fn view_content(c: TextContent) -> ContentV
    decreases c,
{
    match c {
        TextContent::Translatable { translate, with, fallback } => ContentV::Translatable {
            translate: translate@,
            with: match with {
                Some(v) => Some(view_chat_seq(v@)),
                None => None,
            },
            fallback: view_opt_string(fallback),
        },
        TextContent::Keybind { keybind } => ContentV::Keybind { keybind: keybind@ },
        TextContent::Nbt { nbt, interpret, separator, block, entity, storage } => ContentV::Nbt {
            nbt: nbt@,
            interpret: interpret,
            separator: match separator {
                Some(b) => seq![view_component(*b)],
                None => Seq::<ComponentV>::empty(),
            },
            block: view_opt_string(block),
            entity: view_opt_string(entity),
            storage: view_opt_string(storage),
        },
        TextContent::EntityNamesSelector { selector, separator } => (
        ContentV::EntityNamesSelector {
            selector: selector@,
            separator: match separator {
                Some(b) => seq![view_component(*b)],
                None => Seq::<ComponentV>::empty(),
            },
        }),
        TextContent::ScoreboardValue { score } => ContentV::ScoreboardValue {
            score: ScoreV { name: score.name@, objective: score.objective@, value: score.value },
        },
        TextContent::Literal { text } => ContentV::Literal { text: text@ },
    }
}

/// The model of one node.
pub open spec fn view_component(c: ChatComponent) -> ComponentV
    decreases c,
{
    ComponentV {
        content: view_content(c.content),
        bold: c.bold,
        italic: c.italic,
        underlined: c.underlined,
        strikethrough: c.strikethrough,
        obfuscated: c.obfuscated,
        color: c.color,
        insertion: view_opt_string(c.insertion),
        font: view_opt_string(c.font),
        click_event: match c.click_event {
            Some(e) => Some(ClickEventV { action: e.action, value: e.value@ }),
            None => None,
        },
        hover_event: match c.hover_event {
            Some(e) => Some(
                HoverEventV {
                    action: e.action,
                    contents: match e.contents {
                        HoverContent::Text(s) => HoverContentV::Text(s@),
                        HoverContent::Json(v) => HoverContentV::Json(v),
                    },
                },
            ),
            None => None,
        },
        extra: view_component_seq(c.extra@),
    }
}

/// The models of a sequence of nodes, in order.
pub open spec fn view_component_seq(s: Seq<ChatComponent>) -> Seq<ComponentV>
    decreases s,
{
    if s.len() == 0 {
        Seq::<ComponentV>::empty()
    } else {
        seq![view_component(s[0])] + view_component_seq(s.drop_first())
    }
}

/// The model of a message.
pub open spec fn view_chat(c: Chat) -> ChatV
    decreases c,
{
    match c {
        Chat::Legacy(s) => ChatV::Legacy(s@),
        Chat::Component(comp) => ChatV::Component(view_component(comp)),
        Chat::Components(v) => ChatV::Components(view_component_seq(v@)),
    }
}

/// The models of a sequence of messages, in order.
pub open spec fn view_chat_seq(s: Seq<Chat>) -> Seq<ChatV>
    decreases s,
{
    if s.len() == 0 {
        Seq::<ChatV>::empty()
    } else {
        seq![view_chat(s[0])] + view_chat_seq(s.drop_first())
    }
}

impl View for TextContent {
    type V = ContentV;

    open spec fn view(&self) -> ContentV {
        view_content(*self)
    }
}

impl View for ChatComponent {
    type V = ComponentV;

    open spec fn view(&self) -> ComponentV {
        view_component(*self)
    }
}

impl View for Chat {
    type V = ChatV;

    open spec fn view(&self) -> ChatV {
        view_chat(*self)
    }
}

/// Modelling a node sequence keeps its length and goes element by element.
pub proof fn lemma_view_component_seq(s: Seq<ChatComponent>)
    ensures
        view_component_seq(s).len() == s.len(),
        forall|i: int|
            0 <= i < s.len() ==> #[trigger] view_component_seq(s)[i] == view_component(s[i]),
    decreases s,
{
    if s.len() > 0 {
        lemma_view_component_seq(s.drop_first());
    }
}

/// Modelling a message sequence keeps its length and goes element by
/// element.
pub proof fn lemma_view_chat_seq(s: Seq<Chat>)
    ensures
        view_chat_seq(s).len() == s.len(),
        forall|i: int| 0 <= i < s.len() ==> #[trigger] view_chat_seq(s)[i] == view_chat(s[i]),
    decreases s,
{
    if s.len() > 0 {
        lemma_view_chat_seq(s.drop_first());
    }
}

/// The structural default: empty literal content, no styling, no children.
pub open spec fn spec_default_component() -> ComponentV {
    ComponentV {
        content: ContentV::Literal { text: Seq::<char>::empty() },
        bold: false,
        italic: false,
        underlined: false,
        strikethrough: false,
        obfuscated: false,
        color: None,
        insertion: None,
        font: None,
        click_event: None,
        hover_event: None,
        extra: Seq::<ComponentV>::empty(),
    }
}

impl Default for TextContent {
    /// The empty literal.
    fn default() -> (r: Self)
        ensures
            r@ == (ContentV::Literal { text: Seq::<char>::empty() }),
    {
        TextContent::Literal { text: String::new() }
    }
}

impl Default for ChatComponent {
    /// A node with empty content and no children.
    fn default() -> (r: Self)
        ensures
            r@ == spec_default_component(),
    {
        let r = ChatComponent {
            content: TextContent::Literal { text: String::new() },
            bold: false,
            italic: false,
            underlined: false,
            strikethrough: false,
            obfuscated: false,
            color: None,
            insertion: None,
            font: None,
            click_event: None,
            hover_event: None,
            extra: Vec::new(),
        };
        proof {
            assert(view_component_seq(r.extra@) =~= Seq::<ComponentV>::empty());
        }
        r
    }
}

impl TextContent {
    /// Literal content holding the given text.
    pub fn new_literal(literal: &str) -> (r: Self)
        ensures
            r@ == (ContentV::Literal { text: literal@ }),
    {
        TextContent::Literal { text: literal.to_owned() }
    }

    /// Translatable content for a key, with each argument wrapped as a bare
    /// legacy string; no arguments at all become an absent argument list.
    pub fn new_translatable(translate: &str, with: &Vec<String>) -> (r: Self)
        ensures
            r@ == (ContentV::Translatable {
                translate: translate@,
                with: if with@.len() == 0 {
                    None
                } else {
                    Some(Seq::new(with@.len(), |i: int| ChatV::Legacy(with@[i]@)))
                },
                fallback: None,
            }),
    {
        if with.len() == 0 {
            TextContent::Translatable {
                translate: translate.to_owned(),
                with: None,
                fallback: None,
            }
        } else {
            let mut args: Vec<Chat> = Vec::new();
            let n = with.len();
            let mut i: usize = 0;
            while i < n
                invariant
                    i <= n,
                    n == with@.len(),
                    args@.len() == i,
                    forall|j: int|
                        0 <= j < i ==> #[trigger] args@[j] == Chat::Legacy(with@[j]) && args@[j]
                            is Legacy,
                decreases n - i,
            {
                args.push(Chat::Legacy(with[i].clone()));
                i = i + 1;
            }
            proof {
                lemma_view_chat_seq(args@);
                assert(view_chat_seq(args@) =~= Seq::new(
                    with@.len(),
                    |i: int| ChatV::Legacy(with@[i]@),
                ));
            }
            TextContent::Translatable {
                translate: translate.to_owned(),
                with: Some(args),
                fallback: None,
            }
        }
    }
}

/// The size of a content model, the termination measure for rendering.
pub open spec fn size_content(ct: ContentV) -> nat
    decreases ct,
{
    match ct {
        ContentV::Translatable { with, .. } => match with {
            Some(args) => 1 + size_chat_seq(args),
            None => 1,
        },
        ContentV::Nbt { separator, .. } => 1 + size_component_seq(separator),
        ContentV::EntityNamesSelector { separator, .. } => 1 + size_component_seq(separator),
        _ => 1,
    }
}

/// The size of a node model.
pub open spec fn size_component(c: ComponentV) -> nat
    decreases c,
{
    1 + size_content(c.content) + size_component_seq(c.extra)
}

/// The size of a node sequence.
pub open spec fn size_component_seq(s: Seq<ComponentV>) -> nat
    decreases s,
{
    if s.len() == 0 {
        0
    } else {
        1 + size_component(s[0]) + size_component_seq(s.drop_first())
    }
}

/// The size of a message model.
pub open spec fn size_chat(c: ChatV) -> nat
    decreases c,
{
    match c {
        ChatV::Legacy(_) => 1,
        ChatV::Component(comp) => 1 + size_component(comp),
        ChatV::Components(v) => 1 + size_component_seq(v),
    }
}

/// The size of a message sequence.
pub open spec fn size_chat_seq(s: Seq<ChatV>) -> nat
    decreases s,
{
    if s.len() == 0 {
        0
    } else {
        1 + size_chat(s[0]) + size_chat_seq(s.drop_first())
    }
}

/// An element of a node sequence is no larger than the sequence.
proof fn lemma_size_component_seq_index(s: Seq<ComponentV>, i: int)
    requires
        0 <= i < s.len(),
    ensures
        size_component(s[i]) <= size_component_seq(s),
    decreases i,
{
    if i > 0 {
        lemma_size_component_seq_index(s.drop_first(), i - 1);
        assert(s.drop_first()[i - 1] == s[i]);
    }
}

/// An element of a message sequence is no larger than the sequence.
proof fn lemma_size_chat_seq_index(s: Seq<ChatV>, i: int)
    requires
        0 <= i < s.len(),
    ensures
        size_chat(s[i]) <= size_chat_seq(s),
    decreases i,
{
    if i > 0 {
        lemma_size_chat_seq_index(s.drop_first(), i - 1);
        assert(s.drop_first()[i - 1] == s[i]);
    }
}

/// The formatting prefix of a node: the marker-plus-code escape of its
/// color (when the color has a single-character code), then one escape for
/// each active flag, in the fixed order bold, italic, strikethrough,
/// underlined, obfuscated.
pub open spec fn spec_prefix(c: ComponentV) -> Seq<char> {
    (match c.color {
        Some(col) => match spec_color_code(col) {
            Some(ch) => seq![crate::spec_marker(), ch],
            None => Seq::<char>::empty(),
        },
        None => Seq::<char>::empty(),
    }) + (if c.bold {
        seq![crate::spec_marker(), 'l']
    } else {
        Seq::<char>::empty()
    }) + (if c.italic {
        seq![crate::spec_marker(), 'o']
    } else {
        Seq::<char>::empty()
    }) + (if c.strikethrough {
        seq![crate::spec_marker(), 'm']
    } else {
        Seq::<char>::empty()
    }) + (if c.underlined {
        seq![crate::spec_marker(), 'n']
    } else {
        Seq::<char>::empty()
    }) + (if c.obfuscated {
        seq![crate::spec_marker(), 'k']
    } else {
        Seq::<char>::empty()
    })
}

/// One character of a quoted diagnostic placeholder: quote, backslash and
/// the common control characters are backslash-escaped, everything else is
/// itself. The escape set is deliberately this fixed one: unlike std's
/// `Debug` formatting of strings, which also writes the remaining control
/// and non-printable characters as `\u{..}` escapes, any other character
/// stands verbatim here.
pub open spec fn spec_escape_char(c: char) -> Seq<char> {
    if c == '"' {
        seq!['\\', '"']
    } else if c == '\\' {
        seq!['\\', '\\']
    } else if c == '\n' {
        seq!['\\', 'n']
    } else if c == '\r' {
        seq!['\\', 'r']
    } else if c == '\t' {
        seq!['\\', 't']
    } else if c == '\0' {
        seq!['\\', '0']
    } else {
        seq![c]
    }
}

/// The escaped characters of a string, in order.
pub open spec fn spec_escape(s: Seq<char>) -> Seq<char>
    decreases s.len(),
{
    if s.len() == 0 {
        Seq::<char>::empty()
    } else {
        spec_escape_char(s[0]) + spec_escape(s.skip(1))
    }
}

/// A string quoted for a diagnostic placeholder.
pub open spec fn spec_quote(s: Seq<char>) -> Seq<char> {
    seq!['"'] + spec_escape(s) + seq!['"']
}

/// The legacy rendering of one node: formatting prefix, content body,
/// unconditional reset escape, then the children in order.
pub open spec fn spec_render_component(c: ComponentV, table: Seq<(Seq<char>, Seq<char>)>) -> Seq<
    char,
>
    decreases c,
{
    spec_prefix(c) + spec_render_content(c.content, spec_prefix(c), table) + seq![
        crate::spec_marker(),
        'r',
    ] + spec_render_components(c.extra, table)
}

/// The body of a node's content. Literal text is itself; translatable
/// content goes through the translation engine, each argument rendered in
/// full with the node's formatting prefix re-appended after it; the
/// reference variants render as bracketed diagnostic placeholders.
pub open spec fn spec_render_content(
    content: ContentV,
    prefix: Seq<char>,
    table: Seq<(Seq<char>, Seq<char>)>,
) -> Seq<char>
    decreases content,
{
    match content {
        ContentV::Literal { text } => text,
        ContentV::Keybind { keybind } => "<keybind:"@ + spec_quote(keybind) + ">"@,
        ContentV::Nbt { .. } => "<nbt>"@,
        ContentV::ScoreboardValue { score } => "<sbvalue:"@ + spec_quote(score.name) + ">"@,
        ContentV::EntityNamesSelector { selector, .. } => "<selector:"@ + spec_quote(selector)
            + ">"@,
        ContentV::Translatable { translate, with, fallback } => match with {
            Some(args) => spec_translate(
                table,
                translate,
                spec_render_args(args, prefix, table),
                fallback,
            ),
            None => spec_translate(table, translate, Seq::<Seq<char>>::empty(), fallback),
        },
    }
}

/// The rendered translation arguments: each argument's full rendering with
/// the enclosing node's formatting prefix appended after it.
pub open spec fn spec_render_args(
    args: Seq<ChatV>,
    prefix: Seq<char>,
    table: Seq<(Seq<char>, Seq<char>)>,
) -> Seq<Seq<char>>
    decreases args,
{
    if args.len() == 0 {
        Seq::<Seq<char>>::empty()
    } else {
        seq![spec_render_chat(args[0], table) + prefix] + spec_render_args(
            args.drop_first(),
            prefix,
            table,
        )
    }
}

/// The legacy rendering of a message: a bare legacy string is itself; a
/// sequence of components concatenates each component's full rendering.
pub open spec fn spec_render_chat(c: ChatV, table: Seq<(Seq<char>, Seq<char>)>) -> Seq<char>
    decreases c,
{
    match c {
        ChatV::Legacy(s) => s,
        ChatV::Component(comp) => spec_render_component(comp, table),
        ChatV::Components(v) => spec_render_components(v, table),
    }
}

/// The concatenated renderings of a sequence of components.
pub open spec fn spec_render_components(
    v: Seq<ComponentV>,
    table: Seq<(Seq<char>, Seq<char>)>,
) -> Seq<char>
    decreases v,
{
    if v.len() == 0 {
        Seq::<char>::empty()
    } else {
        spec_render_component(v[0], table) + spec_render_components(v.drop_first(), table)
    }
}

/// Rendering a component sequence splits over concatenation.
pub proof fn lemma_render_components_concat(
    a: Seq<ComponentV>,
    b: Seq<ComponentV>,
    table: Seq<(Seq<char>, Seq<char>)>,
)
    ensures
        spec_render_components(a + b, table) == spec_render_components(a, table)
            + spec_render_components(b, table),
    decreases a,
{
    if a.len() == 0 {
        assert(a + b =~= b);
        assert(spec_render_components(a, table) + spec_render_components(b, table)
            =~= spec_render_components(b, table));
    } else {
        assert((a + b)[0] == a[0]);
        assert((a + b).drop_first() =~= a.drop_first() + b);
        lemma_render_components_concat(a.drop_first(), b, table);
        assert(spec_render_component(a[0], table) + (spec_render_components(a.drop_first(), table)
            + spec_render_components(b, table)) =~= (spec_render_component(a[0], table)
            + spec_render_components(a.drop_first(), table)) + spec_render_components(b, table));
    }
}

/// Rendering a singleton sequence is rendering its one component.
proof fn lemma_render_components_one(x: ComponentV, table: Seq<(Seq<char>, Seq<char>)>)
    ensures
        spec_render_components(seq![x], table) == spec_render_component(x, table),
{
    assert(seq![x].drop_first() =~= Seq::<ComponentV>::empty());
    assert(seq![x][0] == x);
    assert(spec_render_component(x, table) + spec_render_components(
        Seq::<ComponentV>::empty(),
        table,
    ) =~= spec_render_component(x, table));
}

/// Rendering an argument list splits over concatenation.
proof fn lemma_render_args_concat(
    a: Seq<ChatV>,
    b: Seq<ChatV>,
    prefix: Seq<char>,
    table: Seq<(Seq<char>, Seq<char>)>,
)
    ensures
        spec_render_args(a + b, prefix, table) == spec_render_args(a, prefix, table)
            + spec_render_args(b, prefix, table),
    decreases a,
{
    if a.len() == 0 {
        assert(a + b =~= b);
        assert(spec_render_args(a, prefix, table) + spec_render_args(b, prefix, table)
            =~= spec_render_args(b, prefix, table));
    } else {
        assert((a + b)[0] == a[0]);
        assert((a + b).drop_first() =~= a.drop_first() + b);
        lemma_render_args_concat(a.drop_first(), b, prefix, table);
        assert(seq![spec_render_chat(a[0], table) + prefix] + (spec_render_args(
            a.drop_first(),
            prefix,
            table,
        ) + spec_render_args(b, prefix, table)) =~= (seq![spec_render_chat(a[0], table) + prefix]
            + spec_render_args(a.drop_first(), prefix, table)) + spec_render_args(
            b,
            prefix,
            table,
        ));
    }
}

/// Appends the quoted diagnostic form of `s` to `out`.
fn append_quoted(out: &mut String, s: &str)
    ensures
        final(out)@ == old(out)@ + spec_quote(s@),
{
    let chars = str_chars(s);
    let n = chars.len();
    push_char(out, '"');
    let mut i: usize = 0;
    proof {
        assert(s@.skip(0) =~= s@);
    }
    while i < n
        invariant
            i <= n,
            n == s@.len(),
            chars@ == s@,
            out@ + spec_escape(s@.skip(i as int)) == old(out)@ + seq!['"'] + spec_escape(s@),
        decreases n - i,
    {
        let ghost pre = s@.skip(i as int);
        let c = chars[i];
        if c == '"' {
            push_char(out, '\\');
            push_char(out, '"');
        } else if c == '\\' {
            push_char(out, '\\');
            push_char(out, '\\');
        } else if c == '\n' {
            push_char(out, '\\');
            push_char(out, 'n');
        } else if c == '\r' {
            push_char(out, '\\');
            push_char(out, 'r');
        } else if c == '\t' {
            push_char(out, '\\');
            push_char(out, 't');
        } else if c == '\0' {
            push_char(out, '\\');
            push_char(out, '0');
        } else {
            push_char(out, c);
        }
        i = i + 1;
        proof {
            assert(pre[0] == c);
            assert(pre.skip(1) =~= s@.skip(i as int));
            assert(out@ + spec_escape(s@.skip(i as int)) =~= old(out)@ + seq!['"'] + spec_escape(
                s@,
            ));
        }
    }
    push_char(out, '"');
    proof {
        assert(s@.skip(n as int).len() == 0);
        assert(out@ =~= old(out)@ + spec_quote(s@));
    }
}

/// Renders the formatting prefix of a node.
#[verifier::rlimit(50)]
#[verifier::spinoff_prover]
fn render_prefix(c: &ChatComponent) -> (r: String)
    ensures
        r@ == spec_prefix(c@),
{
    let ghost m = crate::spec_marker();
    let ghost p1: Seq<char> = match c@.color {
        Some(col) => match spec_color_code(col) {
            Some(ch) => seq![m, ch],
            None => Seq::<char>::empty(),
        },
        None => Seq::<char>::empty(),
    };
    let ghost p2: Seq<char> = if c@.bold {
        seq![m, 'l']
    } else {
        Seq::<char>::empty()
    };
    let ghost p3: Seq<char> = if c@.italic {
        seq![m, 'o']
    } else {
        Seq::<char>::empty()
    };
    let ghost p4: Seq<char> = if c@.strikethrough {
        seq![m, 'm']
    } else {
        Seq::<char>::empty()
    };
    let ghost p5: Seq<char> = if c@.underlined {
        seq![m, 'n']
    } else {
        Seq::<char>::empty()
    };
    let ghost p6: Seq<char> = if c@.obfuscated {
        seq![m, 'k']
    } else {
        Seq::<char>::empty()
    };
    let mut prefix = String::new();
    if let Some(color) = c.color {
        match color.into_color_code() {
            Some(code) => {
                push_char(&mut prefix, '\u{a7}');
                push_char(&mut prefix, code);
            },
            None => {},
        }
    }
    proof {
        assert(prefix@ =~= p1);
    }
    if c.bold {
        push_char(&mut prefix, '\u{a7}');
        push_char(&mut prefix, 'l');
    }
    proof {
        assert(prefix@ =~= p1 + p2);
    }
    if c.italic {
        push_char(&mut prefix, '\u{a7}');
        push_char(&mut prefix, 'o');
    }
    proof {
        assert(prefix@ =~= p1 + p2 + p3);
    }
    if c.strikethrough {
        push_char(&mut prefix, '\u{a7}');
        push_char(&mut prefix, 'm');
    }
    proof {
        assert(prefix@ =~= p1 + p2 + p3 + p4);
    }
    if c.underlined {
        push_char(&mut prefix, '\u{a7}');
        push_char(&mut prefix, 'n');
    }
    proof {
        assert(prefix@ =~= p1 + p2 + p3 + p4 + p5);
    }
    if c.obfuscated {
        push_char(&mut prefix, '\u{a7}');
        push_char(&mut prefix, 'k');
    }
    proof {
        assert(prefix@ =~= p1 + p2 + p3 + p4 + p5 + p6);
        assert(spec_prefix(c@) == p1 + p2 + p3 + p4 + p5 + p6);
    }
    prefix
}

/// Renders one node into its full legacy string.
#[verifier::rlimit(50)]
#[verifier::spinoff_prover]
fn render_component(c: &ChatComponent, translator: &Translator) -> (r: String)
    ensures
        r@ == spec_render_component(c@, translator@),
    decreases size_component(c@),
{
    let prefix = render_prefix(c);
    let mut out = String::new();
    out.append(prefix.as_str());
    match &c.content {
        TextContent::Literal { text } => {
            out.append(text.as_str());
        },
        TextContent::Keybind { keybind } => {
            out.append("<keybind:");
            append_quoted(&mut out, keybind.as_str());
            out.append(">");
        },
        TextContent::Nbt { .. } => {
            out.append("<nbt>");
        },
        TextContent::ScoreboardValue { score } => {
            out.append("<sbvalue:");
            append_quoted(&mut out, score.name.as_str());
            out.append(">");
        },
        TextContent::EntityNamesSelector { selector, .. } => {
            out.append("<selector:");
            append_quoted(&mut out, selector.as_str());
            out.append(">");
        },
        TextContent::Translatable { translate, with, fallback } => {
            let mut rendered: Vec<String> = Vec::new();
            match with {
                Some(list) => {
                    let ghost argsv = view_chat_seq(list@);
                    proof {
                        lemma_view_chat_seq(list@);
                    }
                    let n = list.len();
                    let mut i: usize = 0;
                    while i < n
                        invariant
                            i <= n,
                            n == list@.len(),
                            argsv == view_chat_seq(list@),
                            argsv.len() == n,
                            forall|j: int|
                                0 <= j < n ==> #[trigger] argsv[j] == view_chat(list@[j]),
                            rendered@.len() == i,
                            forall|j: int|
                                0 <= j < i ==> (#[trigger] rendered@[j])@ == spec_render_chat(
                                    argsv[j],
                                    translator@,
                                ) + spec_prefix(c@),
                            prefix@ == spec_prefix(c@),
                            c@.content matches ContentV::Translatable { with: aw, .. } && aw
                                == Some(argsv),
                        decreases n - i,
                    {
                        proof {
                            assert(c@.content == view_content(c.content));
                            assert(c@.content matches ContentV::Translatable { with: aw, .. }
                                && aw == Some(argsv));
                            assert(size_content(c@.content) == 1 + size_chat_seq(argsv));
                            lemma_size_chat_seq_index(argsv, i as int);
                            assert(size_chat(view_chat(list@[i as int])) < size_component(c@));
                        }
                        let mut one = render_chat_inner(&list[i], translator);
                        one.append(prefix.as_str());
                        rendered.push(one);
                        i = i + 1;
                    }
                    proof {
                        lemma_render_args_index(argsv, spec_prefix(c@), translator@);
                        assert(rendered.deep_view() =~= spec_render_args(
                            argsv,
                            spec_prefix(c@),
                            translator@,
                        ));
                    }
                },
                None => {
                    proof {
                        assert(rendered.deep_view() =~= Seq::<Seq<char>>::empty());
                    }
                },
            }
            let fb: Option<&str> = match fallback {
                Some(f) => Some(f.as_str()),
                None => None,
            };
            let t = translator.translate(translate.as_str(), &rendered, fb);
            out.append(t.as_str());
        },
    }
    push_char(&mut out, '\u{a7}');
    push_char(&mut out, 'r');
    let ghost base = out@;
    let ghost extrav = view_component_seq(c.extra@);
    proof {
        lemma_view_component_seq(c.extra@);
        assert(extrav.take(0) =~= Seq::<ComponentV>::empty());
    }
    let n = c.extra.len();
    let mut i: usize = 0;
    while i < n
        invariant
            i <= n,
            n == c.extra@.len(),
            extrav == view_component_seq(c.extra@),
            extrav.len() == n,
            forall|j: int| 0 <= j < n ==> #[trigger] extrav[j] == view_component(c.extra@[j]),
            out@ == base + spec_render_components(extrav.take(i as int), translator@),
            c@.extra == extrav,
        decreases n - i,
    {
        proof {
            lemma_size_component_seq_index(extrav, i as int);
            assert(size_component(view_component(c.extra@[i as int])) < size_component(c@));
        }
        let one = render_component(&c.extra[i], translator);
        out.append(one.as_str());
        i = i + 1;
        proof {
            assert(extrav.take(i as int) =~= extrav.take(i - 1) + seq![extrav[i - 1]]);
            lemma_render_components_concat(extrav.take(i - 1), seq![extrav[i - 1]], translator@);
            lemma_render_components_one(extrav[i - 1], translator@);
            assert(out@ =~= base + spec_render_components(extrav.take(i as int), translator@));
        }
    }
    proof {
        assert(extrav.take(n as int) =~= extrav);
        assert(out@ =~= spec_render_component(c@, translator@));
    }
    out
}

/// Rendered argument lists go element by element.
proof fn lemma_render_args_index(
    args: Seq<ChatV>,
    prefix: Seq<char>,
    table: Seq<(Seq<char>, Seq<char>)>,
)
    ensures
        spec_render_args(args, prefix, table).len() == args.len(),
        forall|j: int|
            0 <= j < args.len() ==> #[trigger] spec_render_args(args, prefix, table)[j]
                == spec_render_chat(args[j], table) + prefix,
    decreases args,
{
    if args.len() > 0 {
        lemma_render_args_index(args.drop_first(), prefix, table);
    }
}

/// Renders a message into its full legacy string.
fn render_chat_inner(c: &Chat, translator: &Translator) -> (r: String)
    ensures
        r@ == spec_render_chat(c@, translator@),
    decreases size_chat(c@),
{
    match c {
        Chat::Legacy(text) => text.clone(),
        Chat::Component(comp) => render_component(comp, translator),
        Chat::Components(list) => {
            let ghost compv = view_component_seq(list@);
            proof {
                lemma_view_component_seq(list@);
                assert(compv.take(0) =~= Seq::<ComponentV>::empty());
            }
            let mut out = String::new();
            let n = list.len();
            let mut i: usize = 0;
            while i < n
                invariant
                    i <= n,
                    n == list@.len(),
                    compv == view_component_seq(list@),
                    compv.len() == n,
                    forall|j: int| 0 <= j < n ==> #[trigger] compv[j] == view_component(list@[j]),
                    out@ == spec_render_components(compv.take(i as int), translator@),
                    c@ == ChatV::Components(compv),
                decreases n - i,
            {
                proof {
                    assert(c@ matches ChatV::Components(vv) && vv == compv);
                    lemma_size_component_seq_index(compv, i as int);
                    assert(size_component(view_component(list@[i as int])) < size_chat(c@));
                }
                let one = render_component(&list[i], translator);
                out.append(one.as_str());
                i = i + 1;
                proof {
                    assert(compv.take(i as int) =~= compv.take(i - 1) + seq![compv[i - 1]]);
                    lemma_render_components_concat(compv.take(i - 1), seq![compv[i - 1]], translator@);
                    lemma_render_components_one(compv[i - 1], translator@);
                    assert(out@ =~= spec_render_components(compv.take(i as int), translator@));
                }
            }
            proof {
                assert(compv.take(n as int) =~= compv);
            }
            out
        },
    }
}

/// The parser state carried along a legacy string: the active color and
/// the accumulated style flags.
#[verifier::ext_equal]
pub struct StyleV {
    pub color: Option<ChatColor>,
    pub bold: bool,
    pub italic: bool,
    pub underlined: bool,
    pub strikethrough: bool,
    pub obfuscated: bool,
}

/// One parsed run: a stretch of literal text with the styling active while
/// it was read.
#[verifier::ext_equal]
pub struct RunV {
    pub text: Seq<char>,
    pub style: StyleV,
}

/// The state before any escape: no color, no flags.
pub open spec fn spec_initial_style() -> StyleV {
    StyleV {
        color: None,
        bold: false,
        italic: false,
        underlined: false,
        strikethrough: false,
        obfuscated: false,
    }
}

/// A style flag accumulates onto the state; the color is untouched.
pub open spec fn spec_style_with_format(st: StyleV, f: ChatFormat) -> StyleV {
    match f {
        ChatFormat::Bold => StyleV { bold: true, ..st },
        ChatFormat::Italic => StyleV { italic: true, ..st },
        ChatFormat::Underlined => StyleV { underlined: true, ..st },
        ChatFormat::Strikethrough => StyleV { strikethrough: true, ..st },
        ChatFormat::Obfuscated => StyleV { obfuscated: true, ..st },
    }
}

/// A color replaces the active color and clears every accumulated flag.
pub open spec fn spec_style_with_color(c: ChatColor) -> StyleV {
    StyleV {
        color: Some(c),
        bold: false,
        italic: false,
        underlined: false,
        strikethrough: false,
        obfuscated: false,
    }
}

/// Pending literal text flushed into a run; empty text flushes nothing.
pub open spec fn spec_flush(pending: Seq<char>, st: StyleV) -> Seq<RunV> {
    if pending.len() > 0 {
        seq![RunV { text: pending, style: st }]
    } else {
        Seq::<RunV>::empty()
    }
}

/// The runs of a legacy string read from the front with pending text and a
/// current style. A marker consumes the next character: a flag code
/// flushes and accumulates the flag, a color code (reset included) flushes
/// and replaces the color while clearing the flags, and an unrecognized
/// code is dropped silently. At the end the pending text flushes.
pub open spec fn spec_parse_runs(s: Seq<char>, pending: Seq<char>, st: StyleV) -> Seq<RunV>
    decreases s.len(),
{
    if s.len() == 0 {
        spec_flush(pending, st)
    } else if s[0] == crate::spec_marker() {
        if s.len() == 1 {
            spec_flush(pending, st)
        } else {
            match spec_format_of_code(s[1]) {
                Some(f) => spec_flush(pending, st) + spec_parse_runs(
                    s.skip(2),
                    Seq::<char>::empty(),
                    spec_style_with_format(st, f),
                ),
                None => match spec_color_of_code(s[1]) {
                    Some(col) => spec_flush(pending, st) + spec_parse_runs(
                        s.skip(2),
                        Seq::<char>::empty(),
                        spec_style_with_color(col),
                    ),
                    None => spec_parse_runs(s.skip(2), pending, st),
                },
            }
        }
    } else {
        spec_parse_runs(s.skip(1), pending.push(s[0]), st)
    }
}

/// The runs of a legacy string, from the initial state.
pub open spec fn spec_parse(s: Seq<char>) -> Seq<RunV> {
    spec_parse_runs(s, Seq::<char>::empty(), spec_initial_style())
}

/// The node a run becomes: its text as literal content, its styling
/// applied flag by flag, nothing else set.
pub open spec fn spec_run_component(r: RunV) -> ComponentV {
    ComponentV {
        content: ContentV::Literal { text: r.text },
        bold: r.style.bold,
        italic: r.style.italic,
        underlined: r.style.underlined,
        strikethrough: r.style.strikethrough,
        obfuscated: r.style.obfuscated,
        color: r.style.color,
        insertion: None,
        font: None,
        click_event: None,
        hover_event: None,
        extra: Seq::<ComponentV>::empty(),
    }
}

/// The nodes of a run sequence, in order.
pub open spec fn spec_runs_components(runs: Seq<RunV>) -> Seq<ComponentV> {
    Seq::new(runs.len(), |i: int| spec_run_component(runs[i]))
}

/// The tree assembled from parsed runs: the first run is the root and each
/// later run is a child of the root, a flat one-level chain; no runs give
/// the structural default node.
pub open spec fn spec_runs_component(runs: Seq<RunV>) -> ComponentV {
    if runs.len() == 0 {
        spec_default_component()
    } else {
        ComponentV { extra: spec_runs_components(runs.drop_first()), ..spec_run_component(
            runs[0],
        ) }
    }
}

/// The component tree a legacy string parses into.
pub open spec fn spec_legacy_component(s: Seq<char>) -> ComponentV {
    spec_runs_component(spec_parse(s))
}

/// Builds one run's node.
fn run_component(text: String, color: Option<ChatColor>, bold: bool, italic: bool, underlined: bool, strikethrough: bool, obfuscated: bool) -> (r: ChatComponent)
    ensures
        r@ == spec_run_component(
            RunV {
                text: text@,
                style: StyleV { color, bold, italic, underlined, strikethrough, obfuscated },
            },
        ),
{
    let r = ChatComponent {
        content: TextContent::Literal { text },
        bold,
        italic,
        underlined,
        strikethrough,
        obfuscated,
        color,
        insertion: None,
        font: None,
        click_event: None,
        hover_event: None,
        extra: Vec::new(),
    };
    proof {
        assert(view_component_seq(r.extra@) =~= Seq::<ComponentV>::empty());
    }
    r
}

impl Chat {
    /// Parses a legacy string; the same as [`Chat::from_legacy`].
    pub fn new(legacy_text: &str) -> (r: Self)
        ensures
            r@ == ChatV::Component(spec_legacy_component(legacy_text@)),
    {
        Self::from_legacy(legacy_text)
    }

    /// Parses a legacy string into a component tree: the first styled run
    /// becomes the root, every later run a child of the root, with colors
    /// carried forward, flags accumulating until a color change, and
    /// unrecognized escapes dropped silently.
    #[verifier::rlimit(100)]
    pub fn from_legacy(legacy_text: &str) -> (r: Self)
        ensures
            r@ == ChatV::Component(spec_legacy_component(legacy_text@)),
    {
        let ghost s = legacy_text@;
        let chars = str_chars(legacy_text);
        let n = chars.len();
        let mut components: Vec<ChatComponent> = Vec::new();
        let ghost mut emitted: Seq<RunV> = Seq::<RunV>::empty();
        let mut cur_text = String::new();
        let mut color: Option<ChatColor> = None;
        let mut bold = false;
        let mut italic = false;
        let mut underlined = false;
        let mut strikethrough = false;
        let mut obfuscated = false;
        let mut i: usize = 0;
        proof {
            assert(s.skip(0) =~= s);
            assert(emitted + spec_parse_runs(s, Seq::<char>::empty(), spec_initial_style())
                =~= spec_parse(s));
        }
        while i < n
            invariant
                i <= n,
                n == s.len(),
                chars@ == s,
                spec_parse(s) == emitted + spec_parse_runs(
                    s.skip(i as int),
                    cur_text@,
                    StyleV { color, bold, italic, underlined, strikethrough, obfuscated },
                ),
                components@.len() == emitted.len(),
                forall|j: int|
                    0 <= j < emitted.len() ==> view_component(#[trigger] components@[j])
                        == spec_run_component(emitted[j]),
            decreases n - i,
        {
            let ghost pre = s.skip(i as int);
            let ghost st0 = StyleV { color, bold, italic, underlined, strikethrough, obfuscated };
            let ghost pend = cur_text@;
            let c = chars[i];
            proof {
                assert(pre[0] == c);
            }
            if c == '\u{a7}' {
                if i + 1 < n {
                    let code = chars[i + 1];
                    proof {
                        assert(pre[1] == code);
                    }
                    let format_res = ChatFormat::from_format_code_char(code);
                    let color_res = ChatColor::from_color_code_char(code);
                    let recognized = format_res.is_ok() || color_res.is_ok();
                    if recognized {
                        if !cur_text.as_str().is_empty() {
                            let finished = run_component(
                                cur_text,
                                color,
                                bold,
                                italic,
                                underlined,
                                strikethrough,
                                obfuscated,
                            );
                            components.push(finished);
                            cur_text = String::new();
                        }
                        proof {
                            emitted = emitted + spec_flush(pend, st0);
                        }
                        match format_res {
                            Ok(f) => {
                                match f {
                                    ChatFormat::Bold => bold = true,
                                    ChatFormat::Italic => italic = true,
                                    ChatFormat::Underlined => underlined = true,
                                    ChatFormat::Strikethrough => strikethrough = true,
                                    ChatFormat::Obfuscated => obfuscated = true,
                                }
                                proof {
                                    assert(StyleV {
                                        color,
                                        bold,
                                        italic,
                                        underlined,
                                        strikethrough,
                                        obfuscated,
                                    } == spec_style_with_format(st0, f));
                                }
                            },
                            Err(_) => {
                                match color_res {
                                    Ok(col) => {
                                        color = Some(col);
                                        bold = false;
                                        italic = false;
                                        underlined = false;
                                        strikethrough = false;
                                        obfuscated = false;
                                    },
                                    Err(_) => {},
                                }
                            },
                        }
                    }
                    i = i + 2;
                    proof {
                        assert(pre.skip(2) =~= s.skip(i as int));
                        assert(pre.len() >= 2);
                        assert(pre[0] == crate::spec_marker());
                        if spec_format_of_code(code) is Some {
                            let f = spec_format_of_code(code).unwrap();
                            assert(spec_parse_runs(pre, pend, st0) == spec_flush(pend, st0)
                                + spec_parse_runs(
                                pre.skip(2),
                                Seq::<char>::empty(),
                                spec_style_with_format(st0, f),
                            ));
                            assert(cur_text@ =~= Seq::<char>::empty());
                            assert(StyleV {
                                color,
                                bold,
                                italic,
                                underlined,
                                strikethrough,
                                obfuscated,
                            } == spec_style_with_format(st0, f));
                        } else if spec_color_of_code(code) is Some {
                            let col = spec_color_of_code(code).unwrap();
                            assert(spec_parse_runs(pre, pend, st0) == spec_flush(pend, st0)
                                + spec_parse_runs(
                                pre.skip(2),
                                Seq::<char>::empty(),
                                spec_style_with_color(col),
                            ));
                            assert(cur_text@ =~= Seq::<char>::empty());
                            assert(StyleV {
                                color,
                                bold,
                                italic,
                                underlined,
                                strikethrough,
                                obfuscated,
                            } == spec_style_with_color(col));
                        } else {
                            assert(spec_parse_runs(pre, pend, st0) == spec_parse_runs(
                                pre.skip(2),
                                pend,
                                st0,
                            ));
                        }
                        assert(spec_parse(s) =~= emitted + spec_parse_runs(
                            s.skip(i as int),
                            cur_text@,
                            StyleV { color, bold, italic, underlined, strikethrough, obfuscated },
                        ));
                    }
                } else {
                    i = i + 1;
                    proof {
                        assert(pre.len() == 1);
                        assert(s.skip(i as int).len() == 0);
                        assert(spec_parse_runs(pre, pend, st0) == spec_flush(pend, st0));
                        assert(spec_parse(s) =~= emitted + spec_parse_runs(
                            s.skip(i as int),
                            cur_text@,
                            StyleV { color, bold, italic, underlined, strikethrough, obfuscated },
                        ));
                    }
                }
            } else {
                push_char(&mut cur_text, c);
                i = i + 1;
                proof {
                    assert(pre.skip(1) =~= s.skip(i as int));
                    assert(cur_text@ =~= pend.push(c));
                    assert(spec_parse(s) =~= emitted + spec_parse_runs(
                        s.skip(i as int),
                        cur_text@,
                        StyleV { color, bold, italic, underlined, strikethrough, obfuscated },
                    ));
                }
            }
        }
        let ghost st_end = StyleV { color, bold, italic, underlined, strikethrough, obfuscated };
        let ghost pend_end = cur_text@;
        proof {
            assert(s.skip(n as int).len() == 0);
        }
        if !cur_text.as_str().is_empty() {
            let finished = run_component(
                cur_text,
                color,
                bold,
                italic,
                underlined,
                strikethrough,
                obfuscated,
            );
            components.push(finished);
        }
        proof {
            emitted = emitted + spec_flush(pend_end, st_end);
            assert(spec_parse(s) =~= emitted);
        }
        let ghost runs = spec_parse(s);
        if components.len() == 0 {
            let root: ChatComponent = Default::default();
            proof {
                assert(runs.len() == 0);
                assert(view_component(root) == spec_legacy_component(s));
            }
            Chat::Component(root)
        } else {
            let ghost comps0 = components@;
            let mut root = components.remove(0);
            root.extra = components;
            proof {
                assert(root.extra@ =~= comps0.drop_first());
                assert(view_component(comps0[0]) == spec_run_component(runs[0]));
                lemma_view_component_seq(root.extra@);
                assert(view_component(root).extra =~= spec_runs_components(runs.drop_first()))
                    by {
                    assert(view_component(root).extra == view_component_seq(root.extra@));
                    assert forall|j: int| 0 <= j < root.extra@.len() implies view_component(
                        #[trigger] root.extra@[j],
                    ) == spec_run_component(runs[j + 1]) by {
                        assert(root.extra@[j] == comps0[j + 1]);
                    }
                }
                assert(view_component(root) =~= spec_runs_component(runs));
            }
            Chat::Component(root)
        }
    }
}

/// Renders a value of the component model into displayable text.
pub trait TextFormatter {
    /// The legacy rendering of this value under a translation table.
    spec fn legacy_view(&self, table: Seq<(Seq<char>, Seq<char>)>) -> Seq<char>;

    /// Converts this value into a legacy formatted string, styling carried
    /// by marker-prefixed codes.
    fn to_legacy_string(&self, translator: &Translator) -> (r: String)
        ensures
            r@ == self.legacy_view(translator@),
    ;

    /// Like the legacy string, but with the escapes turned into ANSI
    /// escapes for terminal display.
    fn to_ansi_string(&self, translator: &Translator) -> (r: String)
        ensures
            r@ == crate::spec_legacy_ansi(self.legacy_view(translator@)),
    {
        let legacy = self.to_legacy_string(translator);
        crate::legacy_to_ansi(legacy.as_str())
    }

    /// The text without any styling.
    fn to_plain_string(&self, translator: &Translator) -> (r: String)
        ensures
            r@ == crate::spec_legacy_plain(self.legacy_view(translator@)),
    {
        let legacy = self.to_legacy_string(translator);
        crate::legacy_to_plain(legacy.as_str())
    }
}

impl TextFormatter for ChatComponent {
    open spec fn legacy_view(&self, table: Seq<(Seq<char>, Seq<char>)>) -> Seq<char> {
        spec_render_component(self@, table)
    }

    fn to_legacy_string(&self, translator: &Translator) -> (r: String) {
        render_component(self, translator)
    }
}

impl TextFormatter for Chat {
    open spec fn legacy_view(&self, table: Seq<(Seq<char>, Seq<char>)>) -> Seq<char> {
        spec_render_chat(self@, table)
    }

    fn to_legacy_string(&self, translator: &Translator) -> (r: String) {
        render_chat_inner(self, translator)
    }
}

} // verus!
