//! The Godot API reference.
//!
//! The reference is generated from the installed engine, so it always matches the binary that the
//! project runs. The engine writes one JSON document with the full API and its prose; what is read
//! of it arrives here as plain values ([`Api`]), is put in order ([`ApiIndex`]) and then answers
//! queries: a class, a member of a class, or any piece of a name.
use vstd::prelude::*;

use crate::path;
use crate::text;

verus! {

/// File the engine writes into its working directory.
pub const DUMP_FILE: &'static str = "extension_api.json";

/// Cache root inside the data dir; one subdirectory per engine version.
pub const CACHE_SUBDIR: &'static str = "api";

/// Max entries listed per section when searching.
pub const SEARCH_LIMIT: usize = 12;

// ---- markup ------------------------------------------------------------------------------------

/// The smaller of two positions.
pub open spec fn least(a: int, b: int) -> int {
    if a <= b {
        a
    } else {
        b
    }
}

/// Where a tag's head ends: at its first blank or equals sign, or at the end of the tag.
pub open spec fn head_end(tag: Seq<char>) -> int {
    least(text::first_of(tag, ' '), text::first_of(tag, '='))
}

pub open spec fn tag_head(tag: Seq<char>) -> Seq<char> {
    tag.take(head_end(tag))
}

/// What follows a tag's head, when something does.
pub open spec fn tag_arg(tag: Seq<char>) -> Option<Seq<char>> {
    if head_end(tag) < tag.len() {
        Some(tag.skip(head_end(tag) + 1))
    } else {
        None
    }
}

/// The tags around inline code.
pub open spec fn is_code_tag(head: Seq<char>) -> bool {
    head == "code"@ || head == "/code"@
}

/// The tags that start a new line.
pub open spec fn is_break_tag(head: Seq<char>) -> bool {
    ||| head == "br"@
    ||| head == "codeblock"@
    ||| head == "codeblocks"@
    ||| head == "gdscript"@
    ||| head == "csharp"@
    ||| head == "/codeblock"@
    ||| head == "/codeblocks"@
    ||| head == "/gdscript"@
    ||| head == "/csharp"@
}

/// The tags that only say how the text between them looks.
pub open spec fn is_style_tag(head: Seq<char>) -> bool {
    ||| head == "b"@
    ||| head == "i"@
    ||| head == "u"@
    ||| head == "s"@
    ||| head == "center"@
    ||| head == "kbd"@
    ||| head == "color"@
    ||| head == "font"@
    ||| head == "img"@
    ||| head == "url"@
}

/// The tags that name their target behind a blank.
pub open spec fn is_reference_tag(head: Seq<char>) -> bool {
    ||| head == "param"@
    ||| head == "member"@
    ||| head == "method"@
    ||| head == "constant"@
    ||| head == "enum"@
    ||| head == "signal"@
    ||| head == "theme_item"@
    ||| head == "annotation"@
    ||| head == "constructor"@
    ||| head == "operator"@
}

/// What a tag leaves in the text.
pub open spec fn tag_text(tag: Seq<char>) -> Seq<char> {
    let head = tag_head(tag);
    let arg = tag_arg(tag);
    if is_code_tag(head) {
        "`"@
    } else if is_break_tag(head) {
        "\n"@
    } else if is_style_tag(head) {
        ""@
    } else if head.len() > 0 && head[0] == '/' {
        ""@
    } else if is_reference_tag(head) {
        match arg {
            Some(a) => a,
            None => ""@,
        }
    } else if arg is None {
        head
    } else {
        ""@
    }
}

/// The text with its tags resolved. A bracket that is never closed is literal text.
pub open spec fn unmarked(s: Seq<char>) -> Seq<char>
    decreases s.len(),
{
    let open = text::first_of(s, '[');
    let after = s.skip(open + 1);
    let close = text::first_of(after, ']');
    if 0 <= open < s.len() && 0 <= close < after.len() {
        s.take(open) + tag_text(after.take(close)) + unmarked(after.skip(close + 1))
    } else {
        s
    }
}

/// Text in front of the first tag is kept as it is; text without a bracket is kept whole.
pub proof fn law_plain_text_is_kept(plain: Seq<char>, rest: Seq<char>)
    requires
        forall|i: int| 0 <= i < plain.len() ==> #[trigger] plain[i] != '[',
    ensures
        unmarked(plain + rest) == plain + unmarked(rest),
        unmarked(plain) == plain,
{
    text::lemma_first_of(plain, '[');
    text::lemma_first_of(rest, '[');
    let s = plain + rest;
    text::lemma_first_of(s, '[');
    let a = text::first_of(s, '[');
    let b = text::first_of(rest, '[');
    if a < plain.len() {
        assert(s[a] == plain[a]);
    }
    if b < rest.len() {
        assert(s[plain.len() + b] == rest[b]);
    }
    if a < s.len() {
        assert(rest[a - plain.len()] == s[a]);
    }
    assert(a == plain.len() + b);
    if a < s.len() {
        assert(s.skip(a + 1) =~= rest.skip(b + 1));
        assert(s.take(a) =~= plain + rest.take(b));
        let after = rest.skip(b + 1);
        let close = text::first_of(after, ']');
        if 0 <= close < after.len() {
            let tag = tag_text(after.take(close));
            let end = unmarked(after.skip(close + 1));
            assert(plain + rest.take(b) + tag + end =~= plain + (rest.take(b) + tag + end));
        }
    }
}

fn code_tag(head: &str) -> (r: bool)
    ensures
        r == is_code_tag(head@),
{
    text::same(head, "code") || text::same(head, "/code")
}

fn break_tag(head: &str) -> (r: bool)
    ensures
        r == is_break_tag(head@),
{
    text::same(head, "br")
        || text::same(head, "codeblock")
        || text::same(head, "codeblocks")
        || text::same(head, "gdscript")
        || text::same(head, "csharp")
        || text::same(head, "/codeblock")
        || text::same(head, "/codeblocks")
        || text::same(head, "/gdscript")
        || text::same(head, "/csharp")
}

fn style_tag(head: &str) -> (r: bool)
    ensures
        r == is_style_tag(head@),
{
    text::same(head, "b")
        || text::same(head, "i")
        || text::same(head, "u")
        || text::same(head, "s")
        || text::same(head, "center")
        || text::same(head, "kbd")
        || text::same(head, "color")
        || text::same(head, "font")
        || text::same(head, "img")
        || text::same(head, "url")
}

fn reference_tag(head: &str) -> (r: bool)
    ensures
        r == is_reference_tag(head@),
{
    text::same(head, "param")
        || text::same(head, "member")
        || text::same(head, "method")
        || text::same(head, "constant")
        || text::same(head, "enum")
        || text::same(head, "signal")
        || text::same(head, "theme_item")
        || text::same(head, "annotation")
        || text::same(head, "constructor")
        || text::same(head, "operator")
}

/// What one tag, given without its brackets, leaves in the text.
pub fn resolve_tag(tag: &[char]) -> (r: String)
    ensures
        r@ == tag_text(tag@),
{
    proof {
        text::lemma_first_of(tag@, ' ');
        text::lemma_first_of(tag@, '=');
        reveal_strlit("");
    }
    let a = text::find(tag, ' ');
    let b = text::find(tag, '=');
    let end: usize = if a <= b {
        a
    } else {
        b
    };
    let head_chars = vstd::slice::slice_subrange(tag, 0, end);
    assert(head_chars@ == tag_head(tag@));
    let head = text::string_of(head_chars);
    if code_tag(head.as_str()) {
        "`".to_string()
    } else if break_tag(head.as_str()) {
        "\n".to_string()
    } else if style_tag(head.as_str()) {
        String::new()
    } else if head_chars.len() > 0 && head_chars[0] == '/' {
        String::new()
    } else if reference_tag(head.as_str()) {
        if end < tag.len() {
            let arg = vstd::slice::slice_subrange(tag, end + 1, tag.len());
            assert(arg@ == tag@.skip(end + 1));
            text::string_of(arg)
        } else {
            String::new()
        }
    } else if end == tag.len() {
        head
    } else {
        String::new()
    }
}

/// Flatten Godot's documentation markup into plain text.
///
/// Reference tags (`[param x]`, `[method Node.free]`, `[Sprite2D]`) become their target, `[code]`
/// spans become backticks, block tags become newlines, and other tags are dropped.
pub fn bbcode_to_text(s: &str) -> (r: String)
    ensures
        r@ == unmarked(s@),
{
    let c = text::chars_of(s);
    let mut out = String::new();
    let mut i: usize = 0;
    assert(c@.skip(0) == c@);
    loop
        invariant
            c@ == s@,
            i <= c.len(),
            unmarked(s@) == out@ + unmarked(c@.skip(i as int)),
        ensures
            i <= c.len(),
            c@ == s@,
            unmarked(s@) == out@ + c@.skip(i as int),
        decreases c.len() - i,
    {
        let rest = vstd::slice::slice_subrange(c.as_slice(), i, c.len());
        assert(rest@ == c@.skip(i as int));
        let open = text::find(rest, '[');
        if open == rest.len() {
            break;
        }
        let after = vstd::slice::slice_subrange(rest, open + 1, rest.len());
        assert(after@ == rest@.skip(open + 1));
        let close = text::find(after, ']');
        if close == after.len() {
            break;
        }
        let tag = vstd::slice::slice_subrange(after, 0, close);
        assert(tag@ == after@.take(close as int));
        let lead = vstd::slice::slice_subrange(rest, 0, open);
        assert(lead@ == rest@.take(open as int));
        let ghost was = out@;
        let lead_text = text::string_of(lead);
        let meant = resolve_tag(tag);
        out.append(lead_text.as_str());
        out.append(meant.as_str());
        i = i + open + 1 + close + 1;
        assert(after@.skip(close + 1) == c@.skip(i as int));
        assert(was + (lead@ + meant@ + unmarked(c@.skip(i as int))) =~= out@ + unmarked(
            c@.skip(i as int),
        ));
    }
    let rest = vstd::slice::slice_subrange(c.as_slice(), i, c.len());
    assert(rest@ == c@.skip(i as int));
    let tail = text::string_of(rest);
    out.append(tail.as_str());
    out
}

// ---- the slice of the engine's dump that is read ------------------------------------------------

/// One API dump, as plain values.
#[derive(Debug)]
pub struct Api {
    pub header: Header,
    pub classes: Vec<Class>,
    pub builtin_classes: Vec<Class>,
    pub global_enums: Vec<Enum>,
    pub utility_functions: Vec<Method>,
    pub singletons: Vec<Singleton>,
}

#[derive(Debug)]
pub struct Header {
    pub version_full_name: String,
}

#[derive(Debug)]
pub struct Singleton {
    pub name: String,
    pub kind: String,
}

#[derive(Debug)]
pub struct Class {
    pub name: String,
    pub inherits: Option<String>,
    pub api_type: Option<String>,
    pub brief_description: String,
    pub description: String,
    pub methods: Vec<Method>,
    /// Engine classes expose properties (setter/getter pairs)...
    pub properties: Vec<Property>,
    /// ...while the built-in Variant types expose plain members.
    pub members: Vec<Member>,
    pub signals: Vec<Signal>,
    pub constants: Vec<Constant>,
    pub enums: Vec<Enum>,
}

#[derive(Debug)]
pub struct Method {
    pub name: String,
    pub is_const: bool,
    pub is_static: bool,
    pub is_virtual: bool,
    pub is_vararg: bool,
    /// Engine-class methods carry a structured return value...
    pub return_value: Option<ReturnValue>,
    /// ...built-in methods and utility functions carry a bare type name.
    pub return_type: Option<String>,
    pub arguments: Vec<Argument>,
    pub description: String,
    /// Utility functions only.
    pub category: Option<String>,
}

#[derive(Debug)]
pub struct ReturnValue {
    pub kind: String,
}

#[derive(Debug)]
pub struct Argument {
    pub name: String,
    pub kind: String,
    pub default_value: Option<String>,
}

#[derive(Debug)]
pub struct Property {
    pub name: String,
    pub kind: String,
    pub setter: Option<String>,
    pub getter: Option<String>,
    pub description: String,
}

#[derive(Debug)]
pub struct Member {
    pub name: String,
    pub kind: String,
    pub description: String,
}

#[derive(Debug)]
pub struct Signal {
    pub name: String,
    pub arguments: Vec<Argument>,
    pub description: String,
}

#[derive(Debug)]
pub struct Constant {
    pub name: String,
    /// The value as JSON text: an integer for engine classes, a string that holds a constructor
    /// expression for built-ins, `null` where the dump gives none.
    pub value: String,
    pub description: String,
}

#[derive(Debug)]
pub struct Enum {
    pub name: String,
    pub is_bitfield: bool,
    pub values: Vec<Constant>,
}

/// What a query can name.
pub trait Named {
    /// The name.
    spec fn label(&self) -> Seq<char>;

    fn name(&self) -> (r: &str)
        ensures
            r@ == self.label(),
    ;
}

impl Named for Class {
    open spec fn label(&self) -> Seq<char> {
        self.name@
    }

    fn name(&self) -> (r: &str) {
        self.name.as_str()
    }
}

impl Named for Method {
    open spec fn label(&self) -> Seq<char> {
        self.name@
    }

    fn name(&self) -> (r: &str) {
        self.name.as_str()
    }
}

impl Named for Property {
    open spec fn label(&self) -> Seq<char> {
        self.name@
    }

    fn name(&self) -> (r: &str) {
        self.name.as_str()
    }
}

impl Named for Member {
    open spec fn label(&self) -> Seq<char> {
        self.name@
    }

    fn name(&self) -> (r: &str) {
        self.name.as_str()
    }
}

impl Named for Signal {
    open spec fn label(&self) -> Seq<char> {
        self.name@
    }

    fn name(&self) -> (r: &str) {
        self.name.as_str()
    }
}

impl Named for Constant {
    open spec fn label(&self) -> Seq<char> {
        self.name@
    }

    fn name(&self) -> (r: &str) {
        self.name.as_str()
    }
}

impl Named for Enum {
    open spec fn label(&self) -> Seq<char> {
        self.name@
    }

    fn name(&self) -> (r: &str) {
        self.name.as_str()
    }
}

/// The first item whose lowercased name is `want`, or the length when there is none.
pub open spec fn position<T: Named>(items: Seq<T>, want: Seq<char>) -> int
    decreases items.len(),
{
    if items.len() == 0 || text::lowered(items[0].label()) == want {
        0
    } else {
        1 + position(items.skip(1), want)
    }
}

fn find_named<T: Named>(items: &[T], want: &str) -> (r: usize)
    ensures
        r as int == position(items@, want@),
        r <= items@.len(),
{
    let mut i: usize = 0;
    assert(items@.skip(0) == items@);
    while i < items.len()
        invariant
            i <= items.len(),
            position(items@, want@) == i + position(items@.skip(i as int), want@),
        decreases items.len() - i,
    {
        let lower = text::lower(items[i].name());
        assert(items@.skip(i as int)[0] == items@[i as int]);
        if text::same(lower.as_str(), want) {
            return i;
        }
        assert(items@.skip(i as int).skip(1) == items@.skip(i + 1));
        i = i + 1;
    }
    i
}

// ---- constant values ----------------------------------------------------------------------------

/// What `serde_json::from_str::<String>` reads: the string that a JSON text holds, when the text is
/// a JSON string.
pub uninterp spec fn json_string_of(raw: Seq<char>) -> Option<Seq<char>>;

/// Text that is a JSON string in the plainest form: quotes around characters that need no escape.
pub open spec fn is_plain_json_string(raw: Seq<char>) -> bool {
    &&& raw.len() >= 2
    &&& raw[0] == '"'
    &&& raw.last() == '"'
    &&& text::is_plain(raw.subrange(1, raw.len() - 1))
}

/// The characters that JSON allows between tokens.
pub open spec fn is_json_blank(c: char) -> bool {
    c == ' ' || c == '\t' || c == '\n' || c == '\r'
}

/// `serde_json::from_str::<String>`, with the error dropped. The result depends on the text alone;
/// a plain JSON string gives what stands between its quotes, and a text that starts with neither a
/// quote nor a blank is no string.
#[verifier::external_body]
fn json_string(raw: &str) -> (r: Option<String>)
    ensures
        text::opt_text(r) == json_string_of(raw@),
        is_plain_json_string(raw@) ==> text::opt_text(r) == Some(
            raw@.subrange(1, raw@.len() - 1),
        ),
        raw@.len() > 0 && raw@[0] != '"' && !is_json_blank(raw@[0]) ==> r is None,
{
    serde_json::from_str::<String>(raw).ok()
}

/// The compact notation that `serde_json` gives a JSON text, when the text is JSON.
pub uninterp spec fn json_compact_of(raw: Seq<char>) -> Option<Seq<char>>;

/// `serde_json::from_str::<serde_json::Value>` followed by the value's `to_string`, with the error
/// dropped. The result depends on the text alone; `null` and every integer of 64 bits keep their
/// notation.
#[verifier::external_body]
fn json_compact(raw: &str) -> (r: Option<String>)
    ensures
        text::opt_text(r) == json_compact_of(raw@),
        raw@ == "null"@ ==> text::opt_text(r) == Some("null"@),
        (exists|n: i64| raw@ == text::signed(n as int)) ==> text::opt_text(r) == Some(raw@),
{
    serde_json::from_str::<serde_json::Value>(raw).ok().map(|v| v.to_string())
}

/// How a constant's value is shown, given what JSON makes of it: a string as what it holds, `null`
/// as a question mark, any other value in its compact notation, and a text that is not JSON as it
/// is.
pub open spec fn shown_value(
    string: Option<Seq<char>>,
    compact: Option<Seq<char>>,
    raw: Seq<char>,
) -> Seq<char> {
    match string {
        Some(s) => s,
        None => match compact {
            Some(t) => if t == "null"@ {
                "?"@
            } else {
                t
            },
            None => raw,
        },
    }
}

/// The string that a JSON text holds: what stands between the quotes of a plain one, none where the
/// text starts like no string, and what [`json_string_of`] names otherwise.
pub open spec fn json_text(raw: Seq<char>) -> Option<Seq<char>> {
    if is_plain_json_string(raw) {
        Some(raw.subrange(1, raw.len() - 1))
    } else if raw.len() > 0 && raw[0] != '"' && !is_json_blank(raw[0]) {
        None
    } else {
        json_string_of(raw)
    }
}

/// The compact notation of a JSON text: `null` and integers as they are, and what
/// [`json_compact_of`] names otherwise.
pub open spec fn json_notation(raw: Seq<char>) -> Option<Seq<char>> {
    if raw == "null"@ || exists|n: i64| raw == text::signed(n as int) {
        Some(raw)
    } else {
        json_compact_of(raw)
    }
}

/// How a constant's value is shown.
pub open spec fn value_text(raw: Seq<char>) -> Seq<char> {
    shown_value(json_text(raw), json_notation(raw), raw)
}

/// Show a value, given what JSON makes of its text.
pub fn show_value(string: Option<String>, compact: Option<String>, raw: &str) -> (r: String)
    ensures
        r@ == shown_value(text::opt_text(string), text::opt_text(compact), raw@),
{
    match string {
        Some(s) => s,
        None => match compact {
            Some(t) => if text::same(t.as_str(), "null") {
                "?".to_string()
            } else {
                t
            },
            None => raw.to_string(),
        },
    }
}

/// Constant values arrive as integers (engine classes) or strings (built-ins).
pub fn render_value(raw: &str) -> (r: String)
    ensures
        r@ == value_text(raw@),
{
    let string = json_string(raw);
    let compact = json_compact(raw);
    show_value(string, compact, raw)
}

// ---- signatures ---------------------------------------------------------------------------------

/// An optional text that says something.
pub open spec fn is_given(v: Option<Seq<char>>) -> bool {
    v is Some && v->0.len() > 0
}

pub open spec fn argument_text(a: Argument) -> Seq<char> {
    if is_given(text::opt_text(a.default_value)) {
        a.name@ + ": "@ + a.kind@ + " = "@ + a.default_value->0@
    } else {
        a.name@ + ": "@ + a.kind@
    }
}

pub open spec fn arguments_text(args: Seq<Argument>) -> Seq<char> {
    text::joined(args.map_values(|a: Argument| argument_text(a)), ", "@)
}

/// The arguments of a method or a signal, in order and with their defaults.
pub fn arg_list(args: &[Argument]) -> (r: String)
    ensures
        r@ == arguments_text(args@),
{
    let mut shown: Vec<String> = Vec::new();
    for i in 0..args.len()
        invariant
            shown@.len() == i,
            forall|j: int| 0 <= j < i ==> #[trigger] shown@[j]@ == argument_text(args@[j]),
    {
        let a = &args[i];
        let mut one = a.name.clone();
        one.append(": ");
        one.append(a.kind.as_str());
        if let Some(d) = &a.default_value {
            if !d.as_str().is_empty() {
                one.append(" = ");
                one.append(d.as_str());
            }
        }
        shown.push(one);
    }
    assert(text::texts(shown@) =~= args@.map_values(|a: Argument| argument_text(a)));
    text::join(&shown, ", ")
}

/// What a method returns, `void` where the dump says nothing.
pub open spec fn return_text(m: Method) -> Seq<char> {
    let said = match m.return_value {
        Some(v) => Some(v.kind@),
        None => text::opt_text(m.return_type),
    };
    if is_given(said) {
        said->0
    } else {
        "void"@
    }
}

/// The qualifiers of a method, in their fixed order.
pub open spec fn qualifiers(m: Method) -> Seq<Seq<char>> {
    let none = Seq::<Seq<char>>::empty();
    let a = if m.is_const {
        none.push("const"@)
    } else {
        none
    };
    let b = if m.is_static {
        a.push("static"@)
    } else {
        a
    };
    let c = if m.is_virtual {
        b.push("virtual"@)
    } else {
        b
    };
    if m.is_vararg {
        c.push("vararg"@)
    } else {
        c
    }
}

/// `name(arg: Type = default, ...) -> Return  [qualifiers]  (category)`
pub open spec fn signature_text(m: Method) -> Seq<char> {
    let plain = m.name@ + "("@ + arguments_text(m.arguments@) + ") -> "@ + return_text(m);
    let qualified = if qualifiers(m).len() > 0 {
        plain + "  ["@ + text::joined(qualifiers(m), " "@) + "]"@
    } else {
        plain
    };
    if is_given(text::opt_text(m.category)) {
        qualified + "  ("@ + m.category->0@ + ")"@
    } else {
        qualified
    }
}

fn returned(m: &Method) -> (r: String)
    ensures
        r@ == return_text(*m),
{
    match &m.return_value {
        Some(v) => if v.kind.as_str().is_empty() {
            "void".to_string()
        } else {
            v.kind.clone()
        },
        None => match &m.return_type {
            Some(t) => if t.as_str().is_empty() {
                "void".to_string()
            } else {
                t.clone()
            },
            None => "void".to_string(),
        },
    }
}

/// A method on one line.
pub fn signature(m: &Method) -> (r: String)
    ensures
        r@ == signature_text(*m),
{
    let mut quals: Vec<String> = Vec::new();
    assert(text::texts(quals@) =~= Seq::<Seq<char>>::empty());
    if m.is_const {
        let ghost was = text::texts(quals@);
        quals.push("const".to_string());
        assert(text::texts(quals@) =~= was.push("const"@));
    }
    if m.is_static {
        let ghost was = text::texts(quals@);
        quals.push("static".to_string());
        assert(text::texts(quals@) =~= was.push("static"@));
    }
    if m.is_virtual {
        let ghost was = text::texts(quals@);
        quals.push("virtual".to_string());
        assert(text::texts(quals@) =~= was.push("virtual"@));
    }
    if m.is_vararg {
        let ghost was = text::texts(quals@);
        quals.push("vararg".to_string());
        assert(text::texts(quals@) =~= was.push("vararg"@));
    }
    assert(text::texts(quals@) == qualifiers(*m));
    let args = arg_list(&m.arguments);
    let ret = returned(m);
    let mut out = m.name.clone();
    out.append("(");
    out.append(args.as_str());
    out.append(") -> ");
    out.append(ret.as_str());
    if quals.len() > 0 {
        let joined = text::join(&quals, " ");
        out.append("  [");
        out.append(joined.as_str());
        out.append("]");
    }
    if let Some(c) = &m.category {
        if !c.as_str().is_empty() {
            out.append("  (");
            out.append(c.as_str());
            out.append(")");
        }
    }
    out
}

// ---- one member's entry -------------------------------------------------------------------------

pub open spec fn accessors_text(p: Property) -> Seq<char> {
    let set = text::opt_text(p.setter);
    let get = text::opt_text(p.getter);
    if is_given(set) && is_given(get) {
        "  [set "@ + set->0 + " / get "@ + get->0 + "]"@
    } else if is_given(get) {
        "  [get "@ + get->0 + ", read-only]"@
    } else {
        ""@
    }
}

fn accessors(p: &Property) -> (r: String)
    ensures
        r@ == accessors_text(*p),
{
    proof {
        reveal_strlit("");
    }
    if let Some(g) = &p.getter {
        if !g.as_str().is_empty() {
            if let Some(s) = &p.setter {
                if !s.as_str().is_empty() {
                    let mut out = "  [set ".to_string();
                    out.append(s.as_str());
                    out.append(" / get ");
                    out.append(g.as_str());
                    out.append("]");
                    return out;
                }
            }
            let mut out = "  [get ".to_string();
            out.append(g.as_str());
            out.append(", read-only]");
            return out;
        }
    }
    String::new()
}

/// `Class.name (kind)` and a line feed.
pub open spec fn heading_text(owner: Seq<char>, name: Seq<char>, kind: Seq<char>) -> Seq<char> {
    owner + "."@ + name + " ("@ + kind + ")\n"@
}

fn heading(owner: &str, name: &str, kind: &str) -> (r: String)
    ensures
        r@ == heading_text(owner@, name@, kind@),
{
    let mut out = owner.to_string();
    out.append(".");
    out.append(name);
    out.append(" (");
    out.append(kind);
    out.append(")\n");
    out
}

/// A heading, the line under it, and the description as plain text.
pub open spec fn entry_text(
    owner: Seq<char>,
    name: Seq<char>,
    kind: Seq<char>,
    line: Seq<char>,
    description: Seq<char>,
) -> Seq<char> {
    heading_text(owner, name, kind) + line + "\n\n"@ + unmarked(description) + "\n"@
}

fn entry(owner: &str, name: &str, kind: &str, line: &str, description: &str) -> (r: String)
    ensures
        r@ == entry_text(owner@, name@, kind@, line@, description@),
{
    let mut out = heading(owner, name, kind);
    let prose = bbcode_to_text(description);
    out.append(line);
    out.append("\n\n");
    out.append(prose.as_str());
    out.append("\n");
    out
}

/// `name: Type`
pub open spec fn typed_text(name: Seq<char>, kind: Seq<char>) -> Seq<char> {
    name + ": "@ + kind
}

fn typed(name: &str, kind: &str) -> (r: String)
    ensures
        r@ == typed_text(name@, kind@),
{
    let mut out = name.to_string();
    out.append(": ");
    out.append(kind);
    out
}

/// `name(arguments)`
pub open spec fn signal_text(s: Signal) -> Seq<char> {
    s.name@ + "("@ + arguments_text(s.arguments@) + ")"@
}

fn signal_line(s: &Signal) -> (r: String)
    ensures
        r@ == signal_text(*s),
{
    let args = arg_list(&s.arguments);
    let mut out = s.name.clone();
    out.append("(");
    out.append(args.as_str());
    out.append(")");
    out
}

/// `NAME = value`
pub open spec fn constant_text(k: Constant) -> Seq<char> {
    k.name@ + " = "@ + value_text(k.value@)
}

fn constant_line(k: &Constant) -> (r: String)
    ensures
        r@ == constant_text(*k),
{
    let value = render_value(k.value.as_str());
    let mut out = k.name.clone();
    out.append(" = ");
    out.append(value.as_str());
    out
}

/// One line of an enum: the value and, where it has one, its description on the same line.
pub open spec fn enum_value_text(v: Constant) -> Seq<char> {
    let prose = unmarked(v.description@);
    if text::is_blank(prose) {
        constant_text(v)
    } else {
        constant_text(v) + "  — "@ + text::replaced(prose, "\n"@, " "@)
    }
}

fn enum_value_line(v: &Constant) -> (r: String)
    ensures
        r@ == enum_value_text(*v),
{
    let mut out = constant_line(v);
    let prose = bbcode_to_text(v.description.as_str());
    if !text::blank(prose.as_str()) {
        proof {
            reveal_strlit("\n");
        }
        let flat = text::replace(prose.as_str(), "\n", " ");
        out.append("  — ");
        out.append(flat.as_str());
    }
    out
}

pub open spec fn enum_text(owner: Seq<char>, e: Enum) -> Seq<char> {
    heading_text(
        owner,
        e.name@,
        if e.is_bitfield {
            "enum, bitfield"@
        } else {
            "enum"@
        },
    ) + text::indented(e.values@.map_values(|v: Constant| enum_value_text(v)))
}

fn enum_entry(owner: &str, e: &Enum) -> (r: String)
    ensures
        r@ == enum_text(owner@, *e),
{
    let mut lines: Vec<String> = Vec::new();
    for i in 0..e.values.len()
        invariant
            lines@.len() == i,
            forall|j: int| 0 <= j < i ==> #[trigger] lines@[j]@ == enum_value_text(e.values@[j]),
    {
        lines.push(enum_value_line(&e.values[i]));
    }
    assert(text::texts(lines@) =~= e.values@.map_values(|v: Constant| enum_value_text(v)));
    let mut out = heading(
        owner,
        e.name.as_str(),
        if e.is_bitfield {
            "enum, bitfield"
        } else {
            "enum"
        },
    );
    let block = text::indent(&lines);
    out.append(block.as_str());
    out
}

/// The first enum with a value of that lowercased name, or the length when there is none.
pub open spec fn enum_with(enums: Seq<Enum>, want: Seq<char>) -> int
    decreases enums.len(),
{
    if enums.len() == 0 || position(enums[0].values@, want) < enums[0].values@.len() {
        0
    } else {
        1 + enum_with(enums.skip(1), want)
    }
}

fn find_enum_with(enums: &[Enum], want: &str) -> (r: usize)
    ensures
        r as int == enum_with(enums@, want@),
        r <= enums@.len(),
{
    let mut i: usize = 0;
    assert(enums@.skip(0) == enums@);
    while i < enums.len()
        invariant
            i <= enums.len(),
            enum_with(enums@, want@) == i + enum_with(enums@.skip(i as int), want@),
        decreases enums.len() - i,
    {
        assert(enums@.skip(i as int)[0] == enums@[i as int]);
        if find_named(&enums[i].values, want) < enums[i].values.len() {
            return i;
        }
        assert(enums@.skip(i as int).skip(1) == enums@.skip(i + 1));
        i = i + 1;
    }
    i
}

/// A member's entry, sought among what the class itself declares: methods first, then properties,
/// members, signals, constants, enums and the values of enums. `want` is a lowercased name.
pub open spec fn member_text(c: Class, want: Seq<char>) -> Option<Seq<char>> {
    let m = position(c.methods@, want);
    let p = position(c.properties@, want);
    let f = position(c.members@, want);
    let s = position(c.signals@, want);
    let k = position(c.constants@, want);
    let e = position(c.enums@, want);
    let h = enum_with(c.enums@, want);
    if m < c.methods@.len() {
        let x = c.methods@[m];
        Some(entry_text(c.name@, x.name@, "method"@, signature_text(x), x.description@))
    } else if p < c.properties@.len() {
        let x = c.properties@[p];
        Some(
            entry_text(
                c.name@,
                x.name@,
                "property"@,
                typed_text(x.name@, x.kind@) + accessors_text(x),
                x.description@,
            ),
        )
    } else if f < c.members@.len() {
        let x = c.members@[f];
        Some(
            entry_text(c.name@, x.name@, "member"@, typed_text(x.name@, x.kind@), x.description@),
        )
    } else if s < c.signals@.len() {
        let x = c.signals@[s];
        Some(entry_text(c.name@, x.name@, "signal"@, signal_text(x), x.description@))
    } else if k < c.constants@.len() {
        let x = c.constants@[k];
        Some(entry_text(c.name@, x.name@, "constant"@, constant_text(x), x.description@))
    } else if e < c.enums@.len() {
        Some(enum_text(c.name@, c.enums@[e]))
    } else if h < c.enums@.len() {
        let holder = c.enums@[h];
        let x = holder.values@[position(holder.values@, want)];
        Some(
            entry_text(
                c.name@,
                x.name@,
                "value of enum "@ + holder.name@,
                constant_text(x),
                x.description@,
            ),
        )
    } else {
        None
    }
}

proof fn lemma_enum_with(enums: Seq<Enum>, want: Seq<char>)
    ensures
        0 <= enum_with(enums, want) <= enums.len(),
        enum_with(enums, want) < enums.len() ==> position(
            enums[enum_with(enums, want)].values@,
            want,
        ) < enums[enum_with(enums, want)].values@.len(),
    decreases enums.len(),
{
    if enums.len() > 0 && !(position(enums[0].values@, want) < enums[0].values@.len()) {
        lemma_enum_with(enums.skip(1), want);
    }
}

/// One member's full entry, or `None` when this class does not declare it.
pub fn render_member_of(c: &Class, member: &str) -> (r: Option<String>)
    ensures
        text::opt_text(r) == member_text(*c, text::lowered(member@)),
{
    let lowered = text::lower(member);
    let want = lowered.as_str();
    let owner = c.name.as_str();

    let m = find_named(&c.methods, want);
    if m < c.methods.len() {
        let x = &c.methods[m];
        let line = signature(x);
        return Some(
            entry(owner, x.name.as_str(), "method", line.as_str(), x.description.as_str()),
        );
    }
    let p = find_named(&c.properties, want);
    if p < c.properties.len() {
        let x = &c.properties[p];
        let mut line = typed(x.name.as_str(), x.kind.as_str());
        let acc = accessors(x);
        line.append(acc.as_str());
        return Some(
            entry(owner, x.name.as_str(), "property", line.as_str(), x.description.as_str()),
        );
    }
    let f = find_named(&c.members, want);
    if f < c.members.len() {
        let x = &c.members[f];
        let line = typed(x.name.as_str(), x.kind.as_str());
        return Some(
            entry(owner, x.name.as_str(), "member", line.as_str(), x.description.as_str()),
        );
    }
    let s = find_named(&c.signals, want);
    if s < c.signals.len() {
        let x = &c.signals[s];
        let line = signal_line(x);
        return Some(
            entry(owner, x.name.as_str(), "signal", line.as_str(), x.description.as_str()),
        );
    }
    let k = find_named(&c.constants, want);
    if k < c.constants.len() {
        let x = &c.constants[k];
        let line = constant_line(x);
        return Some(
            entry(owner, x.name.as_str(), "constant", line.as_str(), x.description.as_str()),
        );
    }
    let e = find_named(&c.enums, want);
    if e < c.enums.len() {
        return Some(enum_entry(owner, &c.enums[e]));
    }
    // An enum value addressed directly, e.g. `Control.FOCUS_ALL`.
    let h = find_enum_with(&c.enums, want);
    if h < c.enums.len() {
        proof {
            lemma_enum_with(c.enums@, want@);
        }
        let holder = &c.enums[h];
        let v = find_named(&holder.values, want);
        let x = &holder.values[v];
        let line = constant_line(x);
        let mut kind = "value of enum ".to_string();
        kind.append(holder.name.as_str());
        return Some(
            entry(
                owner,
                x.name.as_str(),
                kind.as_str(),
                line.as_str(),
                x.description.as_str(),
            ),
        );
    }
    None
}

// ---- a class ------------------------------------------------------------------------------------

/// A titled list with its length, nothing where it is empty.
pub open spec fn listing_text(title: Seq<char>, lines: Seq<Seq<char>>) -> Seq<char> {
    if lines.len() == 0 {
        Seq::empty()
    } else {
        "\n"@ + title + " ("@ + text::decimal(lines.len()) + "):\n"@ + text::indented(lines)
    }
}

fn append_listing(out: &mut String, title: &str, lines: &[String])
    ensures
        final(out)@ == old(out)@ + listing_text(title@, text::texts(lines@)),
{
    if lines.len() > 0 {
        let count = text::count_text(lines.len());
        let block = text::indent(lines);
        let mut list = "\n".to_string();
        list.append(title);
        list.append(" (");
        list.append(count.as_str());
        list.append("):\n");
        list.append(block.as_str());
        out.append(list.as_str());
    } else {
        assert(out@ + Seq::<char>::empty() =~= out@);
    }
}

/// Property/member one-liners, whichever shape this class uses.
pub open spec fn property_texts(c: Class) -> Seq<Seq<char>> {
    c.properties@.map_values(|p: Property| typed_text(p.name@, p.kind@)) + c.members@.map_values(
        |m: Member| typed_text(m.name@, m.kind@),
    )
}

pub fn property_lines(c: &Class) -> (r: Vec<String>)
    ensures
        text::texts(r@) == property_texts(*c),
{
    let mut out: Vec<String> = Vec::new();
    for i in 0..c.properties.len()
        invariant
            out@.len() == i,
            forall|j: int|
                0 <= j < i ==> #[trigger] out@[j]@ == typed_text(
                    c.properties@[j].name@,
                    c.properties@[j].kind@,
                ),
    {
        let p = &c.properties[i];
        out.push(typed(p.name.as_str(), p.kind.as_str()));
    }
    let ghost n = c.properties@.len();
    for i in 0..c.members.len()
        invariant
            n == c.properties@.len(),
            out@.len() == n + i,
            forall|j: int|
                0 <= j < n ==> #[trigger] out@[j]@ == typed_text(
                    c.properties@[j].name@,
                    c.properties@[j].kind@,
                ),
            forall|j: int|
                n <= j < n + i ==> #[trigger] out@[j]@ == typed_text(
                    c.members@[j - n].name@,
                    c.members@[j - n].kind@,
                ),
    {
        let m = &c.members[i];
        out.push(typed(m.name.as_str(), m.kind.as_str()));
    }
    assert(text::texts(out@) =~= property_texts(*c));
    out
}

fn method_lines(methods: &[Method]) -> (r: Vec<String>)
    ensures
        text::texts(r@) == methods@.map_values(|m: Method| signature_text(m)),
{
    let mut out: Vec<String> = Vec::new();
    for i in 0..methods.len()
        invariant
            out@.len() == i,
            forall|j: int| 0 <= j < i ==> #[trigger] out@[j]@ == signature_text(methods@[j]),
    {
        out.push(signature(&methods[i]));
    }
    assert(text::texts(out@) =~= methods@.map_values(|m: Method| signature_text(m)));
    out
}

fn signal_lines(signals: &[Signal]) -> (r: Vec<String>)
    ensures
        text::texts(r@) == signals@.map_values(|s: Signal| signal_text(s)),
{
    let mut out: Vec<String> = Vec::new();
    for i in 0..signals.len()
        invariant
            out@.len() == i,
            forall|j: int| 0 <= j < i ==> #[trigger] out@[j]@ == signal_text(signals@[j]),
    {
        out.push(signal_line(&signals[i]));
    }
    assert(text::texts(out@) =~= signals@.map_values(|s: Signal| signal_text(s)));
    out
}

/// `Name { VALUE, VALUE }`
pub open spec fn enum_line_text(e: Enum) -> Seq<char> {
    e.name@ + " { "@ + text::joined(e.values@.map_values(|v: Constant| v.name@), ", "@) + " }"@
}

fn enum_line(e: &Enum) -> (r: String)
    ensures
        r@ == enum_line_text(*e),
{
    let mut values: Vec<String> = Vec::new();
    for i in 0..e.values.len()
        invariant
            values@.len() == i,
            forall|j: int| 0 <= j < i ==> #[trigger] values@[j]@ == e.values@[j].name@,
    {
        values.push(e.values[i].name.clone());
    }
    assert(text::texts(values@) =~= e.values@.map_values(|v: Constant| v.name@));
    let joined = text::join(&values, ", ");
    let mut out = e.name.clone();
    out.append(" { ");
    out.append(joined.as_str());
    out.append(" }");
    out
}

fn enum_lines(enums: &[Enum]) -> (r: Vec<String>)
    ensures
        text::texts(r@) == enums@.map_values(|e: Enum| enum_line_text(e)),
{
    let mut out: Vec<String> = Vec::new();
    for i in 0..enums.len()
        invariant
            out@.len() == i,
            forall|j: int| 0 <= j < i ==> #[trigger] out@[j]@ == enum_line_text(enums@[j]),
    {
        out.push(enum_line(&enums[i]));
    }
    assert(text::texts(out@) =~= enums@.map_values(|e: Enum| enum_line_text(e)));
    out
}

fn constant_lines(constants: &[Constant]) -> (r: Vec<String>)
    ensures
        text::texts(r@) == constants@.map_values(|k: Constant| constant_text(k)),
{
    let mut out: Vec<String> = Vec::new();
    for i in 0..constants.len()
        invariant
            out@.len() == i,
            forall|j: int| 0 <= j < i ==> #[trigger] out@[j]@ == constant_text(constants@[j]),
    {
        out.push(constant_line(&constants[i]));
    }
    assert(text::texts(out@) =~= constants@.map_values(|k: Constant| constant_text(k)));
    out
}

/// The first singleton of that class, or the length when there is none.
pub open spec fn singleton_of(singletons: Seq<Singleton>, class: Seq<char>) -> int
    decreases singletons.len(),
{
    if singletons.len() == 0 || singletons[0].kind@ == class {
        0
    } else {
        1 + singleton_of(singletons.skip(1), class)
    }
}

fn find_singleton(singletons: &[Singleton], class: &str) -> (r: usize)
    ensures
        r as int == singleton_of(singletons@, class@),
        r <= singletons@.len(),
{
    let mut i: usize = 0;
    assert(singletons@.skip(0) == singletons@);
    while i < singletons.len()
        invariant
            i <= singletons.len(),
            singleton_of(singletons@, class@) == i + singleton_of(
                singletons@.skip(i as int),
                class@,
            ),
        decreases singletons.len() - i,
    {
        assert(singletons@.skip(i as int)[0] == singletons@[i as int]);
        if text::same(singletons[i].kind.as_str(), class) {
            return i;
        }
        assert(singletons@.skip(i as int).skip(1) == singletons@.skip(i + 1));
        i = i + 1;
    }
    i
}

/// What precedes the members of a class: its name and ancestors, where it comes from, whether it is
/// a singleton, and its prose.
pub open spec fn class_head_text(
    c: Class,
    chain: Seq<Seq<char>>,
    singletons: Seq<Singleton>,
) -> Seq<char> {
    let named = c.name@ + " ("@ + text::joined(chain, " < "@) + ")"@;
    let placed = match c.api_type {
        Some(api) => named + "  ["@ + api@ + "]"@,
        None => named,
    };
    let s = singleton_of(singletons, c.name@);
    let reached = if s < singletons.len() {
        placed + "  [singleton: "@ + singletons[s].name@ + "]"@
    } else {
        placed
    };
    let line = reached + "\n"@;
    let brief = if text::is_blank(c.brief_description@) {
        line
    } else {
        line + unmarked(c.brief_description@) + "\n"@
    };
    if text::is_blank(c.description@) {
        brief
    } else {
        brief + "\n"@ + unmarked(c.description@) + "\n"@
    }
}

fn class_head(c: &Class, chain: &[String], singletons: &[Singleton]) -> (r: String)
    ensures
        r@ == class_head_text(*c, text::texts(chain@), singletons@),
{
    let ancestors = text::join(chain, " < ");
    let mut out = c.name.clone();
    out.append(" (");
    out.append(ancestors.as_str());
    out.append(")");
    if let Some(api) = &c.api_type {
        out.append("  [");
        out.append(api.as_str());
        out.append("]");
    }
    // Autoloaded singletons are reachable by name from any script, which is worth saying
    // before listing members the caller would otherwise think they must instantiate.
    let s = find_singleton(singletons, c.name.as_str());
    if s < singletons.len() {
        out.append("  [singleton: ");
        out.append(singletons[s].name.as_str());
        out.append("]");
    }
    out.append("\n");
    if !text::blank(c.brief_description.as_str()) {
        let brief = bbcode_to_text(c.brief_description.as_str());
        out.append(brief.as_str());
        out.append("\n");
    }
    if !text::blank(c.description.as_str()) {
        let prose = bbcode_to_text(c.description.as_str());
        out.append("\n");
        out.append(prose.as_str());
        out.append("\n");
    }
    out
}

/// A class in full: its head and what it declares, kind by kind.
pub open spec fn class_text(
    c: Class,
    chain: Seq<Seq<char>>,
    singletons: Seq<Singleton>,
) -> Seq<char> {
    class_head_text(c, chain, singletons) + listing_text("properties"@, property_texts(c))
        + listing_text("methods"@, c.methods@.map_values(|m: Method| signature_text(m)))
        + listing_text("signals"@, c.signals@.map_values(|s: Signal| signal_text(s)))
        + listing_text("enums"@, c.enums@.map_values(|e: Enum| enum_line_text(e))) + listing_text(
        "constants"@,
        c.constants@.map_values(|k: Constant| constant_text(k)),
    ) + "\nAsk for `"@ + c.name@ + ".<member>` to get one member's full description.\n"@
}

fn class_page(c: &Class, chain: &[String], singletons: &[Singleton]) -> (r: String)
    ensures
        r@ == class_text(*c, text::texts(chain@), singletons@),
{
    let mut out = class_head(c, chain, singletons);
    let properties = property_lines(c);
    append_listing(&mut out, "properties", &properties);
    let methods = method_lines(&c.methods);
    append_listing(&mut out, "methods", &methods);
    let signals = signal_lines(&c.signals);
    append_listing(&mut out, "signals", &signals);
    let enums = enum_lines(&c.enums);
    append_listing(&mut out, "enums", &enums);
    let constants = constant_lines(&c.constants);
    append_listing(&mut out, "constants", &constants);
    out.append("\nAsk for `");
    out.append(c.name.as_str());
    out.append(".<member>` to get one member's full description.\n");
    out
}

// ---- the index ----------------------------------------------------------------------------------

/// The class of that name, or the length when there is none.
pub open spec fn class_at(classes: Seq<Class>, name: Seq<char>) -> int
    decreases classes.len(),
{
    if classes.len() == 0 || classes[0].name@ == name {
        0
    } else {
        1 + class_at(classes.skip(1), name)
    }
}

/// The class of that name.
pub open spec fn class_named(classes: Seq<Class>, name: Seq<char>) -> Option<Class> {
    let i = class_at(classes, name);
    if i < classes.len() {
        Some(classes[i])
    } else {
        None
    }
}

/// The last class of that name in a dump, which is the one that counts.
pub open spec fn latest_named(listed: Seq<Class>, name: Seq<char>) -> Option<Class>
    decreases listed.len(),
{
    if listed.len() == 0 {
        None
    } else {
        match latest_named(listed.skip(1), name) {
            Some(c) => Some(c),
            None => if listed[0].name@ == name {
                Some(listed[0])
            } else {
                None
            },
        }
    }
}

/// In the order of the names, and no name twice.
pub open spec fn is_ordered(classes: Seq<Class>) -> bool {
    forall|i: int, j: int|
        0 <= i < j < classes.len() ==> text::before(
            (#[trigger] classes[i]).name@,
            (#[trigger] classes[j]).name@,
        )
}

/// The last class whose lowercased name is `key`, or -1 when there is none.
pub open spec fn class_by_lower(classes: Seq<Class>, key: Seq<char>) -> int
    decreases classes.len(),
{
    if classes.len() == 0 {
        -1
    } else if text::lowered(classes.last().name@) == key {
        classes.len() - 1
    } else {
        class_by_lower(classes.drop_last(), key)
    }
}

/// How many ancestors are followed at most, the class itself counted.
pub const CHAIN_LIMIT: usize = 65;

/// The names of a class, its parent, its grandparent and so on, at most `limit` of them.
pub open spec fn chain_text(classes: Seq<Class>, name: Seq<char>, limit: nat) -> Seq<Seq<char>>
    decreases limit,
{
    match class_named(classes, name) {
        Some(c) => if limit == 0 {
            Seq::empty()
        } else {
            seq![c.name@] + match c.inherits {
                Some(p) => chain_text(classes, p@, (limit - 1) as nat),
                None => Seq::empty(),
            }
        },
        None => Seq::empty(),
    }
}

proof fn lemma_class_at(classes: Seq<Class>, name: Seq<char>)
    ensures
        0 <= class_at(classes, name) <= classes.len(),
        class_at(classes, name) < classes.len() ==> classes[class_at(classes, name)].name@ == name,
        forall|j: int|
            0 <= j < class_at(classes, name) ==> (#[trigger] classes[j]).name@ != name,
    decreases classes.len(),
{
    if classes.len() > 0 && classes[0].name@ != name {
        lemma_class_at(classes.skip(1), name);
        assert forall|j: int| 0 <= j < class_at(classes, name) implies (#[trigger] classes[j]).name@
            != name by {
            if j > 0 {
                assert(classes.skip(1)[j - 1] == classes[j]);
            }
        }
    }
}

/// Among ordered classes a name is found wherever it stands.
proof fn lemma_class_at_is(classes: Seq<Class>, name: Seq<char>, i: int)
    requires
        is_ordered(classes),
        0 <= i < classes.len(),
        classes[i].name@ == name,
    ensures
        class_at(classes, name) == i,
{
    lemma_class_at(classes, name);
    let k = class_at(classes, name);
    if k < i {
        text::lemma_before_irreflexive(name);
        assert(text::before(classes[k].name@, classes[i].name@));
    }
}

fn find_class(classes: &[Class], name: &str) -> (r: usize)
    ensures
        r as int == class_at(classes@, name@),
        r <= classes@.len(),
{
    let mut i: usize = 0;
    assert(classes@.skip(0) == classes@);
    while i < classes.len()
        invariant
            i <= classes.len(),
            class_at(classes@, name@) == i + class_at(classes@.skip(i as int), name@),
        decreases classes.len() - i,
    {
        assert(classes@.skip(i as int)[0] == classes@[i as int]);
        if text::same(classes[i].name.as_str(), name) {
            return i;
        }
        assert(classes@.skip(i as int).skip(1) == classes@.skip(i + 1));
        i = i + 1;
    }
    i
}

/// Put a class in its place, unless one of its name is there already.
fn place(classes: &mut Vec<Class>, c: Class)
    requires
        is_ordered(old(classes)@),
    ensures
        is_ordered(final(classes)@),
        forall|n: Seq<char>| #[trigger]
            class_named(final(classes)@, n) == match class_named(old(classes)@, n) {
                Some(x) => Some(x),
                None => if c.name@ == n {
                    Some(c)
                } else {
                    None
                },
            },
{
    let ghost was = classes@;
    let mut i: usize = 0;
    while i < classes.len() && text::less(classes[i].name.as_str(), c.name.as_str())
        invariant
            i <= classes.len(),
            classes@ == was,
            forall|j: int| 0 <= j < i ==> text::before((#[trigger] was[j]).name@, c.name@),
        decreases classes.len() - i,
    {
        i = i + 1;
    }
    if i < classes.len() && text::same(classes[i].name.as_str(), c.name.as_str()) {
        proof {
            lemma_class_at_is(was, c.name@, i as int);
        }
        return;
    }
    let ghost added = c;
    classes.insert(i, c);
    proof {
        let now = classes@;
        let at = i as int;
        assert(now == was.insert(at, added));
        if at < was.len() {
            text::lemma_before_total(was[at].name@, added.name@);
        }
        assert forall|j: int| at <= j < was.len() implies text::before(
            added.name@,
            (#[trigger] was[j]).name@,
        ) by {
            if j > at {
                text::lemma_before_transitive(added.name@, was[at].name@, was[j].name@);
            }
        }
        assert forall|j: int, k: int| 0 <= j < k < now.len() implies text::before(
            (#[trigger] now[j]).name@,
            (#[trigger] now[k]).name@,
        ) by {
            let a = if j < at {
                j
            } else {
                j - 1
            };
            let b = if k < at {
                k
            } else {
                k - 1
            };
            if j == at {
                assert(now[k] == was[b]);
            } else if k == at {
                assert(now[j] == was[a]);
            } else {
                assert(now[j] == was[a]);
                assert(now[k] == was[b]);
            }
        }
        assert forall|n: Seq<char>| #[trigger]
            class_named(now, n) == match class_named(was, n) {
                Some(x) => Some(x),
                None => if added.name@ == n {
                    Some(added)
                } else {
                    None
                },
            } by {
            lemma_class_at(was, n);
            lemma_class_at(now, n);
            let k = class_at(was, n);
            if k < was.len() {
                let m = if k < at {
                    k
                } else {
                    k + 1
                };
                assert(now[m] == was[k]);
                lemma_class_at_is(now, n, m);
            } else if added.name@ == n {
                assert(now[at] == added);
                lemma_class_at_is(now, n, at);
            } else {
                let m = class_at(now, n);
                if m < now.len() {
                    if m < at {
                        assert(now[m] == was[m]);
                    } else if m > at {
                        assert(now[m] == was[m - 1]);
                    }
                    assert(false);
                }
            }
        }
    }
}

/// Take every class out of `listed` and into its place; the last of a name is the one that stays.
fn place_all(classes: &mut Vec<Class>, listed: Vec<Class>, Ghost(after): Ghost<Seq<Class>>)
    requires
        is_ordered(old(classes)@),
        forall|n: Seq<char>| #[trigger]
            class_named(old(classes)@, n) == latest_named(after, n),
    ensures
        is_ordered(final(classes)@),
        forall|n: Seq<char>| #[trigger]
            class_named(final(classes)@, n) == latest_named(listed@ + after, n),
{
    let mut left = listed;
    assert(listed@.skip(listed@.len() as int) + after =~= after);
    while left.len() > 0
        invariant
            left@.len() <= listed@.len(),
            left@ == listed@.take(left@.len() as int),
            is_ordered(classes@),
            forall|n: Seq<char>| #[trigger]
                class_named(classes@, n) == latest_named(
                    listed@.skip(left@.len() as int) + after,
                    n,
                ),
        decreases left@.len(),
    {
        let ghost k = left@.len() - 1;
        let ghost done = listed@.skip(k + 1) + after;
        let ghost more = listed@.skip(k) + after;
        if let Some(c) = left.pop() {
            proof {
                assert(more[0] == c);
                assert(more.skip(1) =~= done);
            }
            place(classes, c);
        }
        assert(left@ =~= listed@.take(left@.len() as int));
    }
    assert(listed@.skip(0) + after =~= listed@ + after);
}

/// A parsed, queryable API reference.
pub struct ApiIndex {
    /// The engine version the dump came from.
    pub version: String,
    /// In the order of the names.
    pub classes: Vec<Class>,
    /// The lowercased name of each class, so lookups are case-insensitive.
    pub lower: Vec<String>,
    pub global_enums: Vec<Enum>,
    pub utility: Vec<Method>,
    pub singletons: Vec<Singleton>,
}

/// What came of reading and parsing a dump.
pub enum DumpFile {
    /// It could not be read; the system's words for it.
    Unreadable(String),
    /// It is no extension-api document; the parser's words for it.
    Malformed(String),
    Read(Api),
}

pub open spec fn holds_no_classes(api: Api) -> bool {
    api.classes@.len() + api.builtin_classes@.len() == 0
}

impl ApiIndex {
    /// The classes are in order and the lowercased names stand beside them.
    pub open spec fn wf(self) -> bool {
        &&& is_ordered(self.classes@)
        &&& self.lower@.len() == self.classes@.len()
        &&& forall|i: int|
            0 <= i < self.lower@.len() ==> (#[trigger] self.lower@[i])@ == text::lowered(
                self.classes@[i].name@,
            )
    }

    /// The index is that of the dump.
    pub open spec fn holds(self, api: Api) -> bool {
        &&& !holds_no_classes(api)
        &&& self.wf()
        &&& self.version == api.header.version_full_name
        &&& forall|n: Seq<char>| #[trigger]
            class_named(self.classes@, n) == latest_named(api.classes@ + api.builtin_classes@, n)
        &&& self.global_enums@ == api.global_enums@
        &&& self.utility@ == api.utility_functions@
        &&& self.singletons@ == api.singletons@
    }

    /// Put a dump in order. Fails only when it holds no classes.
    pub fn parse(api: Api) -> (r: Result<Self, String>)
        ensures
            match r {
                Ok(idx) => idx.holds(api),
                Err(e) => holds_no_classes(api) && e@ == "API dump contains no classes"@,
            },
    {
        if api.classes.len() == 0 && api.builtin_classes.len() == 0 {
            return Err("API dump contains no classes".to_string());
        }
        let mut classes: Vec<Class> = Vec::new();
        place_all(&mut classes, api.builtin_classes, Ghost(Seq::empty()));
        assert(api.builtin_classes@ + Seq::<Class>::empty() =~= api.builtin_classes@);
        place_all(&mut classes, api.classes, Ghost(api.builtin_classes@));
        let mut lower: Vec<String> = Vec::new();
        for i in 0..classes.len()
            invariant
                lower@.len() == i,
                forall|j: int|
                    0 <= j < i ==> (#[trigger] lower@[j])@ == text::lowered(classes@[j].name@),
        {
            lower.push(text::lower(classes[i].name.as_str()));
        }
        Ok(
            ApiIndex {
                version: api.header.version_full_name,
                classes,
                lower,
                global_enums: api.global_enums,
                utility: api.utility_functions,
                singletons: api.singletons,
            },
        )
    }

    /// The index of a dump on disk, or why there is none.
    pub fn load(path: &str, file: DumpFile) -> (r: Result<Self, String>)
        ensures
            match file {
                DumpFile::Unreadable(e) => r is Err && r->Err_0@ == "cannot read "@ + path@ + ": "@
                    + e@,
                DumpFile::Malformed(e) => r is Err && r->Err_0@ == "bad API dump: "@ + e@,
                DumpFile::Read(api) => match r {
                    Ok(idx) => idx.holds(api),
                    Err(e) => holds_no_classes(api) && e@ == "API dump contains no classes"@,
                },
            },
    {
        match file {
            DumpFile::Unreadable(e) => {
                let mut out = "cannot read ".to_string();
                out.append(path);
                out.append(": ");
                out.append(e.as_str());
                Err(out)
            },
            DumpFile::Malformed(e) => {
                let mut out = "bad API dump: ".to_string();
                out.append(e.as_str());
                Err(out)
            },
            DumpFile::Read(api) => ApiIndex::parse(api),
        }
    }

    pub fn class_count(&self) -> (r: usize)
        ensures
            r == self.classes@.len(),
    {
        self.classes.len()
    }
}

// ---- searching ----------------------------------------------------------------------------------

/// The lowercased name holds the needle.
pub open spec fn is_hit(name: Seq<char>, needle: Seq<char>) -> bool {
    text::has(text::lowered(name), needle)
}

fn hit(name: &str, needle: &str) -> (r: bool)
    ensures
        r == is_hit(name@, needle@),
{
    let lower = text::lower(name);
    text::contains(lower.as_str(), needle)
}

/// `Class.name (kind)`
pub open spec fn hit_text(owner: Seq<char>, name: Seq<char>, kind: Seq<char>) -> Seq<char> {
    owner + "."@ + name + " ("@ + kind + ")"@
}

/// The items whose names hold the needle, in order.
pub open spec fn hits_among<T: Named>(
    items: Seq<T>,
    needle: Seq<char>,
    owner: Seq<char>,
    kind: Seq<char>,
) -> Seq<Seq<char>>
    decreases items.len(),
{
    if items.len() == 0 {
        Seq::empty()
    } else {
        let earlier = hits_among(items.drop_last(), needle, owner, kind);
        if is_hit(items.last().label(), needle) {
            earlier.push(hit_text(owner, items.last().label(), kind))
        } else {
            earlier
        }
    }
}

fn append_hits<T: Named>(
    out: &mut Vec<String>,
    items: &[T],
    needle: &str,
    owner: &str,
    kind: &str,
)
    ensures
        text::texts(final(out)@) == text::texts(old(out)@) + hits_among(
            items@,
            needle@,
            owner@,
            kind@,
        ),
{
    let ghost was = text::texts(out@);
    assert(was + Seq::<Seq<char>>::empty() =~= was);
    for i in 0..items.len()
        invariant
            text::texts(out@) == was + hits_among(items@.take(i as int), needle@, owner@, kind@),
    {
        let ghost earlier = hits_among(items@.take(i as int), needle@, owner@, kind@);
        assert(items@.take(i + 1).drop_last() =~= items@.take(i as int));
        let name = items[i].name();
        if hit(name, needle) {
            let mut line = owner.to_string();
            line.append(".");
            line.append(name);
            line.append(" (");
            line.append(kind);
            line.append(")");
            proof {
                text::lemma_texts_push(out@, line);
                assert((was + earlier).push(line@) =~= was + earlier.push(line@));
            }
            out.push(line);
        }
    }
    assert(items@.take(items@.len() as int) == items@);
}

/// Everything a class declares whose name holds the needle.
pub open spec fn class_hits(c: Class, needle: Seq<char>) -> Seq<Seq<char>> {
    hits_among(c.methods@, needle, c.name@, "method"@) + hits_among(
        c.properties@,
        needle,
        c.name@,
        "property"@,
    ) + hits_among(c.members@, needle, c.name@, "member"@) + hits_among(
        c.signals@,
        needle,
        c.name@,
        "signal"@,
    )
}

/// The hits of the classes one after the other, until there are enough of them.
pub open spec fn member_hits(classes: Seq<Class>, needle: Seq<char>) -> Seq<Seq<char>>
    decreases classes.len(),
{
    if classes.len() == 0 {
        Seq::empty()
    } else {
        let earlier = member_hits(classes.drop_last(), needle);
        if earlier.len() >= SEARCH_LIMIT {
            earlier
        } else {
            earlier + class_hits(classes.last(), needle)
        }
    }
}

fn find_member_hits(classes: &[Class], needle: &str) -> (r: Vec<String>)
    ensures
        text::texts(r@) == member_hits(classes@, needle@),
{
    let mut out: Vec<String> = Vec::new();
    assert(text::texts(out@) =~= Seq::<Seq<char>>::empty());
    for i in 0..classes.len()
        invariant
            text::texts(out@) == member_hits(classes@.take(i as int), needle@),
    {
        assert(classes@.take(i + 1).drop_last() =~= classes@.take(i as int));
        if out.len() < SEARCH_LIMIT {
            let ghost was = text::texts(out@);
            let c = &classes[i];
            append_hits(&mut out, &c.methods, needle, c.name.as_str(), "method");
            append_hits(&mut out, &c.properties, needle, c.name.as_str(), "property");
            append_hits(&mut out, &c.members, needle, c.name.as_str(), "member");
            append_hits(&mut out, &c.signals, needle, c.name.as_str(), "signal");
            assert(text::texts(out@) =~= was + class_hits(classes@[i as int], needle@));
        }
    }
    assert(classes@.take(classes@.len() as int) == classes@);
    out
}

/// The names of the classes that hold the needle, in order.
pub open spec fn name_hits(classes: Seq<Class>, needle: Seq<char>) -> Seq<Seq<char>>
    decreases classes.len(),
{
    if classes.len() == 0 {
        Seq::empty()
    } else {
        let earlier = name_hits(classes.drop_last(), needle);
        if is_hit(classes.last().name@, needle) {
            earlier.push(classes.last().name@)
        } else {
            earlier
        }
    }
}

fn find_name_hits(classes: &[Class], needle: &str) -> (r: Vec<String>)
    ensures
        text::texts(r@) == name_hits(classes@, needle@),
{
    let mut out: Vec<String> = Vec::new();
    assert(text::texts(out@) =~= Seq::<Seq<char>>::empty());
    for i in 0..classes.len()
        invariant
            text::texts(out@) == name_hits(classes@.take(i as int), needle@),
    {
        assert(classes@.take(i + 1).drop_last() =~= classes@.take(i as int));
        if hit(classes[i].name.as_str(), needle) {
            let name = classes[i].name.clone();
            proof {
                text::lemma_texts_push(out@, name);
            }
            out.push(name);
        }
    }
    assert(classes@.take(classes@.len() as int) == classes@);
    out
}

/// The signatures of the functions whose names hold the needle, in order.
pub open spec fn utility_hits(utility: Seq<Method>, needle: Seq<char>) -> Seq<Seq<char>>
    decreases utility.len(),
{
    if utility.len() == 0 {
        Seq::empty()
    } else {
        let earlier = utility_hits(utility.drop_last(), needle);
        if is_hit(utility.last().name@, needle) {
            earlier.push(signature_text(utility.last()))
        } else {
            earlier
        }
    }
}

fn find_utility_hits(utility: &[Method], needle: &str) -> (r: Vec<String>)
    ensures
        text::texts(r@) == utility_hits(utility@, needle@),
{
    let mut out: Vec<String> = Vec::new();
    assert(text::texts(out@) =~= Seq::<Seq<char>>::empty());
    for i in 0..utility.len()
        invariant
            text::texts(out@) == utility_hits(utility@.take(i as int), needle@),
    {
        assert(utility@.take(i + 1).drop_last() =~= utility@.take(i as int));
        if hit(utility[i].name.as_str(), needle) {
            let line = signature(&utility[i]);
            proof {
                text::lemma_texts_push(out@, line);
            }
            out.push(line);
        }
    }
    assert(utility@.take(utility@.len() as int) == utility@);
    out
}

/// The values of one enum whose names hold the needle, in order.
pub open spec fn value_hits(
    values: Seq<Constant>,
    needle: Seq<char>,
    owner: Seq<char>,
) -> Seq<Seq<char>>
    decreases values.len(),
{
    if values.len() == 0 {
        Seq::empty()
    } else {
        let earlier = value_hits(values.drop_last(), needle, owner);
        if is_hit(values.last().name@, needle) {
            earlier.push(owner + "."@ + constant_text(values.last()))
        } else {
            earlier
        }
    }
}

/// The values of the global enums whose names hold the needle, enum by enum.
pub open spec fn enum_hits(enums: Seq<Enum>, needle: Seq<char>) -> Seq<Seq<char>>
    decreases enums.len(),
{
    if enums.len() == 0 {
        Seq::empty()
    } else {
        enum_hits(enums.drop_last(), needle) + value_hits(
            enums.last().values@,
            needle,
            enums.last().name@,
        )
    }
}

fn append_value_hits(out: &mut Vec<String>, values: &[Constant], needle: &str, owner: &str)
    ensures
        text::texts(final(out)@) == text::texts(old(out)@) + value_hits(values@, needle@, owner@),
{
    let ghost was = text::texts(out@);
    assert(was + Seq::<Seq<char>>::empty() =~= was);
    for i in 0..values.len()
        invariant
            text::texts(out@) == was + value_hits(values@.take(i as int), needle@, owner@),
    {
        let ghost earlier = value_hits(values@.take(i as int), needle@, owner@);
        assert(values@.take(i + 1).drop_last() =~= values@.take(i as int));
        if hit(values[i].name.as_str(), needle) {
            let value = constant_line(&values[i]);
            let mut line = owner.to_string();
            line.append(".");
            line.append(value.as_str());
            proof {
                text::lemma_texts_push(out@, line);
                assert((was + earlier).push(line@) =~= was + earlier.push(line@));
            }
            out.push(line);
        }
    }
    assert(values@.take(values@.len() as int) == values@);
}

fn find_enum_hits(enums: &[Enum], needle: &str) -> (r: Vec<String>)
    ensures
        text::texts(r@) == enum_hits(enums@, needle@),
{
    let mut out: Vec<String> = Vec::new();
    assert(text::texts(out@) =~= Seq::<Seq<char>>::empty());
    for i in 0..enums.len()
        invariant
            text::texts(out@) == enum_hits(enums@.take(i as int), needle@),
    {
        assert(enums@.take(i + 1).drop_last() =~= enums@.take(i as int));
        append_value_hits(&mut out, &enums[i].values, needle, enums[i].name.as_str());
    }
    assert(enums@.take(enums@.len() as int) == enums@);
    out
}

/// At most `n` items, from the front.
pub open spec fn capped(v: Seq<Seq<char>>, n: nat) -> Seq<Seq<char>> {
    if v.len() <= n {
        v
    } else {
        v.take(n as int)
    }
}

fn cap(v: Vec<String>, n: usize) -> (r: Vec<String>)
    ensures
        text::texts(r@) == capped(text::texts(v@), n as nat),
{
    let mut out = v;
    if out.len() > n {
        out.truncate(n);
    }
    assert(text::texts(out@) =~= capped(text::texts(v@), n as nat));
    out
}

/// A labelled list of at most [`SEARCH_LIMIT`] entries, with an ellipsis where there were more, and
/// nothing where there was none.
pub open spec fn section_text(label: Seq<char>, items: Seq<Seq<char>>) -> Seq<char> {
    if items.len() == 0 {
        Seq::empty()
    } else if items.len() > SEARCH_LIMIT {
        label + ":\n"@ + text::indented(capped(items, SEARCH_LIMIT as nat)) + "  …\n"@
    } else {
        label + ":\n"@ + text::indented(items)
    }
}

/// Append a capped, labelled list to `out` when it has entries.
pub fn section(out: &mut String, label: &str, items: Vec<String>)
    ensures
        final(out)@ == old(out)@ + section_text(label@, text::texts(items@)),
{
    let count: usize = items.len();
    if count > 0 {
        let shown = cap(items, SEARCH_LIMIT);
        let block = text::indent(&shown);
        let mut list = label.to_string();
        list.append(":\n");
        list.append(block.as_str());
        if count > SEARCH_LIMIT {
            list.append("  …\n");
        }
        out.append(list.as_str());
    } else {
        assert(out@ + Seq::<char>::empty() =~= out@);
    }
}

// ---- queries ------------------------------------------------------------------------------------

/// The first class of the chain that declares the member, or the length when none does.
pub open spec fn owner_of(classes: Seq<Class>, chain: Seq<Seq<char>>, want: Seq<char>) -> int
    decreases chain.len(),
{
    if chain.len() == 0 {
        0
    } else {
        let declared = match class_named(classes, chain[0]) {
            Some(c) => member_text(c, want) is Some,
            None => false,
        };
        if declared {
            0
        } else {
            1 + owner_of(classes, chain.skip(1), want)
        }
    }
}

impl ApiIndex {
    /// What an empty query is answered.
    pub open spec fn overview_text(self) -> Seq<char> {
        "Godot API reference "@ + self.version@ + " — "@ + text::decimal(self.classes@.len())
            + " classes, "@ + text::decimal(self.global_enums@.len()) + " global enums, "@
            + text::decimal(self.utility@.len()) + " utility functions, "@ + text::decimal(
            self.singletons@.len(),
        )
            + " singletons.\nQuery a class (`Node2D`), a member (`Sprite2D.frame_coords`), or any substring to search."@
    }

    /// The inheritance chain of a class.
    pub open spec fn chain(self, name: Seq<char>) -> Seq<Seq<char>> {
        chain_text(self.classes@, name, CHAIN_LIMIT as nat)
    }

    /// What a query for a class is answered.
    pub open spec fn class_answer(self, name: Seq<char>) -> Seq<char> {
        match class_named(self.classes@, name) {
            Some(c) => class_text(c, self.chain(name), self.singletons@),
            None => "no class "@ + text::notation(name),
        }
    }

    /// What a query for a member of a class is answered.
    pub open spec fn member_answer(self, class: Seq<char>, member: Seq<char>) -> Seq<char> {
        let chain = self.chain(class);
        let want = text::lowered(member);
        let i = owner_of(self.classes@, chain, want);
        if member.len() == 0 {
            self.class_answer(class)
        } else if i < chain.len() {
            let found = member_text(class_named(self.classes@, chain[i])->0, want)->0;
            if chain[i] == class {
                found
            } else {
                found + "\n(inherited by "@ + class + " from "@ + chain[i] + ")\n"@
            }
        } else {
            class + " has no member "@ + text::notation(member) + " (searched "@
                + text::joined(chain, " < "@) + ").\nAsk for `"@ + class
                + "` to list its members."@
        }
    }

    /// What any other query is answered.
    pub open spec fn search_answer(self, q: Seq<char>) -> Seq<char> {
        let needle = text::lowered(q);
        let names = name_hits(self.classes@, needle);
        let members = member_hits(self.classes@, needle);
        let functions = capped(utility_hits(self.utility@, needle), SEARCH_LIMIT as nat);
        let values = capped(enum_hits(self.global_enums@, needle), SEARCH_LIMIT as nat);
        if names.len() == 0 && members.len() == 0 && functions.len() == 0 && values.len() == 0 {
            "nothing in the "@ + self.version@ + " API matches "@ + text::notation(q)
        } else {
            "no exact class named "@ + text::notation(q) + " — matches:\n"@ + section_text(
                "classes"@,
                names,
            ) + section_text("members"@, members) + section_text("utility functions"@, functions)
                + section_text("global enum values"@, values)
        }
    }

    /// The class a query names, whatever its case: -1 when it names none.
    pub open spec fn named(self, q: Seq<char>) -> int {
        class_by_lower(self.classes@, text::lowered(text::trimmed(q)))
    }

    /// The answer to a query: the overview for an empty one, a member for `Class.member`, a class
    /// for the name of one, and a search for anything else.
    pub open spec fn answer(self, query: Seq<char>) -> Seq<char> {
        let q = text::trimmed(query);
        if q.len() == 0 {
            self.overview_text()
        } else {
            match text::split_at_first(q, '.') {
                Some((head, tail)) => if self.named(head) >= 0 {
                    self.member_answer(self.classes@[self.named(head)].name@, text::trimmed(tail))
                } else {
                    self.whole_answer(q)
                },
                None => self.whole_answer(q),
            }
        }
    }

    /// The answer to a query that is not about a member of a known class.
    pub open spec fn whole_answer(self, q: Seq<char>) -> Seq<char> {
        if self.named(q) >= 0 {
            self.class_answer(self.classes@[self.named(q)].name@)
        } else {
            self.search_answer(q)
        }
    }

    fn overview(&self) -> (r: String)
        ensures
            r@ == self.overview_text(),
    {
        let classes = text::count_text(self.classes.len());
        let enums = text::count_text(self.global_enums.len());
        let functions = text::count_text(self.utility.len());
        let singletons = text::count_text(self.singletons.len());
        let mut out = "Godot API reference ".to_string();
        out.append(self.version.as_str());
        out.append(" — ");
        out.append(classes.as_str());
        out.append(" classes, ");
        out.append(enums.as_str());
        out.append(" global enums, ");
        out.append(functions.as_str());
        out.append(" utility functions, ");
        out.append(singletons.as_str());
        out.append(
            " singletons.\nQuery a class (`Node2D`), a member (`Sprite2D.frame_coords`), or any substring to search.",
        );
        out
    }

    /// The canonical class for a case-insensitive query, as its position.
    fn resolve(&self, name: &[char]) -> (r: Option<usize>)
        requires
            self.wf(),
        ensures
            match r {
                Some(i) => i < self.classes@.len() && i as int == self.named(name@),
                None => self.named(name@) < 0,
            },
    {
        let trimmed = text::string_of(text::trim_chars(name));
        let key = text::lower(trimmed.as_str());
        let mut i: usize = self.lower.len();
        assert(self.classes@.take(i as int) == self.classes@);
        while i > 0
            invariant
                self.wf(),
                i <= self.classes@.len(),
                key@ == text::lowered(text::trimmed(name@)),
                self.named(name@) == class_by_lower(self.classes@.take(i as int), key@),
            decreases i,
        {
            let ghost part = self.classes@.take(i as int);
            assert(part.last() == self.classes@[i - 1]);
            assert(part.drop_last() =~= self.classes@.take(i - 1));
            assert(self.lower@[i - 1]@ == text::lowered(self.classes@[i - 1].name@));
            if text::same(self.lower[i - 1].as_str(), key.as_str()) {
                return Some(i - 1);
            }
            i = i - 1;
        }
        None
    }

    /// `Class < Parent < Grandparent`: the chain, guarded against cycles.
    pub fn inheritance_chain(&self, name: &str) -> (r: Vec<String>)
        ensures
            text::texts(r@) == self.chain(name@),
    {
        let mut chain: Vec<String> = Vec::new();
        let mut cur = find_class(&self.classes, name);
        let mut ghost_name: Ghost<Seq<char>> = Ghost(name@);
        assert(text::texts(chain@) + self.chain(name@) =~= self.chain(name@));
        while cur < self.classes.len() && chain.len() < CHAIN_LIMIT
            invariant
                cur as int == class_at(self.classes@, ghost_name@),
                cur <= self.classes@.len(),
                chain@.len() <= CHAIN_LIMIT,
                self.chain(name@) == text::texts(chain@) + chain_text(
                    self.classes@,
                    ghost_name@,
                    (CHAIN_LIMIT - chain@.len()) as nat,
                ),
            decreases CHAIN_LIMIT - chain@.len(),
        {
            let ghost was = text::texts(chain@);
            let ghost left = (CHAIN_LIMIT - chain@.len()) as nat;
            let c = &self.classes[cur];
            let ghost rest = match &c.inherits {
                Some(p) => chain_text(self.classes@, p@, (left - 1) as nat),
                None => Seq::empty(),
            };
            let own = c.name.clone();
            proof {
                text::lemma_texts_push(chain@, own);
                assert(chain_text(self.classes@, ghost_name@, left) == seq![c.name@] + rest);
                assert(was + (seq![c.name@] + rest) =~= was.push(c.name@) + rest);
            }
            chain.push(own);
            match &c.inherits {
                Some(p) => {
                    cur = find_class(&self.classes, p.as_str());
                    ghost_name = Ghost(p@);
                },
                None => {
                    assert(text::texts(chain@) + Seq::<Seq<char>>::empty() =~= text::texts(chain@));
                    return chain;
                },
            }
        }
        assert(text::texts(chain@) + Seq::<Seq<char>>::empty() =~= text::texts(chain@));
        chain
    }

    fn render_class(&self, name: &str) -> (r: String)
        ensures
            r@ == self.class_answer(name@),
    {
        let i = find_class(&self.classes, name);
        if i < self.classes.len() {
            let chain = self.inheritance_chain(name);
            class_page(&self.classes[i], &chain, &self.singletons)
        } else {
            let shown = text::quote(name);
            let mut out = "no class ".to_string();
            out.append(shown.as_str());
            out
        }
    }

    /// Find `member` on `class` or anywhere up its inheritance chain.
    fn render_member(&self, class: &str, member: &str) -> (r: String)
        ensures
            r@ == self.member_answer(class@, member@),
    {
        if member.is_empty() {
            return self.render_class(class);
        }
        let chain = self.inheritance_chain(class);
        let ghost all = text::texts(chain@);
        let ghost want = text::lowered(member@);
        assert(all.skip(0) == all);
        for i in 0..chain.len()
            invariant
                all == text::texts(chain@),
                all == self.chain(class@),
                want == text::lowered(member@),
                member@.len() > 0,
                owner_of(self.classes@, all, want) == i + owner_of(
                    self.classes@,
                    all.skip(i as int),
                    want,
                ),
        {
            assert(all.skip(i as int)[0] == chain@[i as int]@);
            assert(all.skip(i as int).skip(1) == all.skip(i + 1));
            let k = find_class(&self.classes, chain[i].as_str());
            if k < self.classes.len() {
                if let Some(found) = render_member_of(&self.classes[k], member) {
                    let mut out = found;
                    if !text::same(chain[i].as_str(), class) {
                        out.append("\n(inherited by ");
                        out.append(class);
                        out.append(" from ");
                        out.append(chain[i].as_str());
                        out.append(")\n");
                    }
                    return out;
                }
            }
        }
        let searched = text::join(&chain, " < ");
        let shown = text::quote(member);
        let mut out = class.to_string();
        out.append(" has no member ");
        out.append(shown.as_str());
        out.append(" (searched ");
        out.append(searched.as_str());
        out.append(").\nAsk for `");
        out.append(class);
        out.append("` to list its members.");
        out
    }

    /// Free-text search across class names, member names, utility functions and enum values.
    fn search(&self, q: &str) -> (r: String)
        ensures
            r@ == self.search_answer(q@),
    {
        let lowered = text::lower(q);
        let needle = lowered.as_str();
        let names = find_name_hits(&self.classes, needle);
        let members = find_member_hits(&self.classes, needle);
        let functions = cap(find_utility_hits(&self.utility, needle), SEARCH_LIMIT);
        let values = cap(find_enum_hits(&self.global_enums, needle), SEARCH_LIMIT);
        proof {
            assert(text::texts(names@).len() == names@.len());
            assert(text::texts(members@).len() == members@.len());
            assert(text::texts(functions@).len() == functions@.len());
            assert(text::texts(values@).len() == values@.len());
        }
        let shown = text::quote(q);
        if names.len() == 0 && members.len() == 0 && functions.len() == 0 && values.len() == 0 {
            let mut out = "nothing in the ".to_string();
            out.append(self.version.as_str());
            out.append(" API matches ");
            out.append(shown.as_str());
            return out;
        }
        let mut out = "no exact class named ".to_string();
        out.append(shown.as_str());
        out.append(" — matches:\n");
        section(&mut out, "classes", names);
        section(&mut out, "members", members);
        section(&mut out, "utility functions", functions);
        section(&mut out, "global enum values", values);
        out
    }

    /// Answer one query. `Class`, `Class.member`, or a free-text search term.
    pub fn query(&self, q: &str) -> (r: String)
        requires
            self.wf(),
        ensures
            r@ == self.answer(q@),
    {
        let c = text::chars_of(q);
        let t = text::trim_chars(&c);
        if t.len() == 0 {
            return self.overview();
        }
        if let Some((head, tail)) = text::split_once(t, '.') {
            if let Some(i) = self.resolve(head) {
                let member = text::string_of(text::trim_chars(tail));
                return self.render_member(self.classes[i].name.as_str(), member.as_str());
            }
        }
        if let Some(i) = self.resolve(t) {
            return self.render_class(self.classes[i].name.as_str());
        }
        let term = text::string_of(t);
        self.search(term.as_str())
    }
}

// ---- engine versions ---------------------------------------------------------------------------

/// The characters of a version that a path segment keeps.
pub open spec fn is_version_char(c: char) -> bool {
    text::is_letter(c) || text::is_digit(c) || c == '.' || c == '-' || c == '_'
}

/// The version with every other character made a dash.
pub open spec fn dashed(s: Seq<char>) -> Seq<char> {
    s.map_values(
        |c: char|
            if is_version_char(c) {
                c
            } else {
                '-'
            },
    )
}

/// A version as a path segment. A text that names no directory of its own (nothing at all, or the
/// current or the parent directory) becomes `unknown`.
pub open spec fn version_segment(version: Seq<char>) -> Seq<char> {
    let cleaned = text::stripped(dashed(text::trimmed(version)), '-');
    if cleaned.len() == 0 || cleaned == "."@ || cleaned == ".."@ {
        "unknown"@
    } else {
        cleaned
    }
}

/// Reduce a version string to something safe as a single path segment.
pub fn sanitize_version(version: &str) -> (r: String)
    ensures
        r@ == version_segment(version@),
        r@ != "."@ && r@ != ".."@,
{
    proof {
        law_versions_become_clean_segments(version@);
    }
    let c = text::chars_of(version);
    let t = text::trim_chars(&c);
    let mut cleaned: Vec<char> = Vec::new();
    for i in 0..t.len()
        invariant
            cleaned@ == dashed(t@.take(i as int)),
    {
        let k = t[i];
        cleaned.push(
            if text::letter(k) || text::digit(k) || k == '.' || k == '-' || k == '_' {
                k
            } else {
                '-'
            },
        );
        assert(cleaned@ =~= dashed(t@.take(i + 1)));
    }
    assert(t@.take(t@.len() as int) == t@);
    let kept = text::string_of(text::strip(&cleaned, '-'));
    if kept.as_str().is_empty() || text::same(kept.as_str(), ".") || text::same(
        kept.as_str(),
        "..",
    ) {
        "unknown".to_string()
    } else {
        kept
    }
}

/// Where the dump of one engine version is cached.
pub open spec fn cache_dir_of(data_dir: Seq<char>, version: Seq<char>) -> Seq<char> {
    path::joined(path::joined(data_dir, CACHE_SUBDIR@), version_segment(version))
}

/// Directory holding the cached dump for one engine version.
pub fn cache_dir(data_dir: &str, version: &str) -> (r: String)
    ensures
        r@ == cache_dir_of(data_dir@, version@),
{
    let api = path::join(data_dir, CACHE_SUBDIR);
    let segment = sanitize_version(version);
    path::join(api.as_str(), segment.as_str())
}

/// Path of the cached dump for one engine version.
pub fn cache_path(data_dir: &str, version: &str) -> (r: String)
    ensures
        r@ == path::joined(cache_dir_of(data_dir@, version@), DUMP_FILE@),
{
    let dir = cache_dir(data_dir, version);
    path::join(dir.as_str(), DUMP_FILE)
}

/// A line that reads like a version: a digit in front and a dot somewhere.
pub open spec fn is_version_line(line: Seq<char>) -> bool {
    let t = text::trimmed(line);
    t.len() > 0 && text::is_digit(t[0]) && text::first_of(t, '.') < t.len()
}

/// The first line that reads like a version, trimmed.
pub open spec fn version_among(lines: Seq<Seq<char>>) -> Option<Seq<char>>
    decreases lines.len(),
{
    if lines.len() == 0 {
        None
    } else if is_version_line(lines[0]) {
        Some(text::trimmed(lines[0]))
    } else {
        version_among(lines.skip(1))
    }
}

/// Pull the version out of `godot --version` output, ignoring any banner lines around it.
pub fn parse_version_output(lines: &[String]) -> (r: Option<String>)
    ensures
        text::opt_text(r) == version_among(text::texts(lines@)),
{
    let ghost all = text::texts(lines@);
    assert(all.skip(0) == all);
    for i in 0..lines.len()
        invariant
            all == text::texts(lines@),
            version_among(all) == version_among(all.skip(i as int)),
    {
        let c = text::chars_of(lines[i].as_str());
        let t = text::trim_chars(&c);
        assert(all.skip(i as int)[0] == lines@[i as int]@);
        assert(all.skip(i as int).skip(1) == all.skip(i + 1));
        if t.len() > 0 && text::digit(t[0]) && text::find(t, '.') < t.len() {
            return Some(text::string_of(t));
        }
    }
    None
}

// ---- what lookups and the cache keep ------------------------------------------------------------

/// Blanks around a query do not matter.
pub proof fn law_queries_are_trimmed(index: ApiIndex, query: Seq<char>)
    ensures
        index.answer(query) == index.answer(text::trimmed(query)),
{
    text::lemma_trimmed_twice(query);
}

/// A query that is answered with a class: it names one, and what stands in front of its first dot,
/// if it holds one, does not.
pub open spec fn shows_a_class(index: ApiIndex, q: Seq<char>) -> bool {
    &&& text::trimmed(q).len() > 0
    &&& index.named(q) >= 0
    &&& match text::split_at_first(text::trimmed(q), '.') {
        Some((head, _)) => index.named(head) < 0,
        None => true,
    }
}

proof fn lemma_ascii_is_trimmed(s: Seq<char>)
    requires
        vstd::utf8::is_ascii_chars(s),
    ensures
        vstd::utf8::is_ascii_chars(text::trimmed(s)),
{
    text::lemma_trimmed_is_inside(s);
    let front = text::trimmed_start(s);
    let t = text::trimmed(s);
    assert forall|i: int| 0 <= i < t.len() implies '\0' <= #[trigger] t[i] <= '\u{7f}' by {
        assert(t[i] == front[i]);
        assert(front[i] == s[s.len() - front.len() + i]);
    }
}

/// In ASCII, what shows a class does so in any case.
proof fn lemma_shows_in_any_case(index: ApiIndex, a: Seq<char>, b: Seq<char>)
    requires
        text::lowered(text::trimmed(a)) == text::lowered(text::trimmed(b)),
        vstd::utf8::is_ascii_chars(text::trimmed(a)),
        vstd::utf8::is_ascii_chars(text::trimmed(b)),
        shows_a_class(index, a),
    ensures
        shows_a_class(index, b),
{
    let s = text::trimmed(a);
    let t = text::trimmed(b);
    assert(s.len() == text::lowered(s).len() && t.len() == text::lowered(t).len());
    assert forall|i: int| 0 <= i < s.len() implies text::ascii_lower(#[trigger] s[i])
        == text::ascii_lower(t[i]) by {
        assert(text::lowered(s)[i] == text::lowered(t)[i]);
    }
    text::lemma_first_of(s, '.');
    text::lemma_first_of(t, '.');
    let k = text::first_of(s, '.');
    let l = text::first_of(t, '.');
    assert(k == l) by {
        if k < l {
            assert(t[k] != '.' && s[k] == '.');
        }
        if l < k {
            assert(s[l] != '.' && t[l] == '.');
        }
    }
    if k < s.len() {
        let x = s.take(k);
        let y = t.take(k);
        assert forall|i: int| 0 <= i < k implies text::ascii_lower(#[trigger] x[i])
            == text::ascii_lower(y[i]) by {
            assert(text::ascii_lower(s[i]) == text::ascii_lower(t[i]));
        }
        text::lemma_trimmed_in_any_case(x, y);
        lemma_ascii_is_trimmed(x);
        lemma_ascii_is_trimmed(y);
        assert(text::lowered(text::trimmed(x)) =~= text::lowered(text::trimmed(y)));
    }
}

/// Letter case does not matter where a query names a class. Beyond ASCII, both queries have to be
/// ones that show a class.
pub proof fn law_class_lookup_ignores_case(index: ApiIndex, a: Seq<char>, b: Seq<char>)
    requires
        text::lowered(text::trimmed(a)) == text::lowered(text::trimmed(b)),
        shows_a_class(index, a),
        shows_a_class(index, b) || (vstd::utf8::is_ascii_chars(text::trimmed(a))
            && vstd::utf8::is_ascii_chars(text::trimmed(b))),
    ensures
        index.answer(a) == index.answer(b),
        index.answer(a) == index.class_answer(index.classes@[index.named(a)].name@),
{
    if !shows_a_class(index, b) {
        lemma_shows_in_any_case(index, a, b);
    }
    text::lemma_trimmed_twice(a);
    text::lemma_trimmed_twice(b);
}

/// A class is found by its name in any case and between blanks, and an empty member shows it too.
pub proof fn law_a_class_is_found_by_its_name(index: ApiIndex, k: int, q: Seq<char>)
    requires
        0 <= k < index.classes@.len(),
        ({
            let c = index.classes@[k].name@;
            &&& c.len() > 0
            &&& text::trimmed(c) == c
            &&& text::first_of(c, '.') == c.len()
            &&& forall|j: int|
                0 <= j < index.classes@.len() && j != k ==> text::lowered(
                    #[trigger] index.classes@[j].name@,
                ) != text::lowered(c)
            &&& text::lowered(text::trimmed(q)) == text::lowered(c)
            &&& vstd::utf8::is_ascii_chars(c) && vstd::utf8::is_ascii_chars(text::trimmed(q)) || (
            text::trimmed(q).len() > 0 && text::split_at_first(text::trimmed(q), '.') is None)
        }),
    ensures
        index.answer(q) == index.answer(index.classes@[k].name@),
        index.answer(index.classes@[k].name@ + "."@) == index.answer(index.classes@[k].name@),
        index.answer(index.classes@[k].name@) == index.class_answer(index.classes@[k].name@),
{
    let c = index.classes@[k].name@;
    lemma_only_class_of_a_name(index.classes@, k);
    law_class_lookup_ignores_case(index, c, q);
    law_a_trailing_dot_shows_the_class(index, c);
}

proof fn lemma_only_class_of_a_name(classes: Seq<Class>, k: int)
    requires
        0 <= k < classes.len(),
        forall|j: int|
            0 <= j < classes.len() && j != k ==> text::lowered(#[trigger] classes[j].name@)
                != text::lowered(classes[k].name@),
    ensures
        class_by_lower(classes, text::lowered(classes[k].name@)) == k,
    decreases classes.len(),
{
    let front = classes.drop_last();
    if k < front.len() {
        assert(text::lowered(classes[classes.len() - 1].name@) != text::lowered(classes[k].name@));
        assert forall|j: int| 0 <= j < front.len() && j != k implies text::lowered(
            #[trigger] front[j].name@,
        ) != text::lowered(front[k].name@) by {
            assert(front[j] == classes[j]);
        }
        lemma_only_class_of_a_name(front, k);
    }
}

/// A class name followed by a dot, with no member behind it, shows the class.
pub proof fn law_a_trailing_dot_shows_the_class(index: ApiIndex, c: Seq<char>)
    requires
        index.named(c) >= 0,
        text::trimmed(c).len() > 0,
        text::first_of(c, '.') == c.len(),
    ensures
        index.answer(c + "."@) == index.answer(c),
        index.answer(c) == index.class_answer(index.classes@[index.named(c)].name@),
{
    reveal_strlit(".");
    let head = text::trimmed_start(c);
    text::lemma_trimmed_is_inside(c);
    text::lemma_trimmed_twice(c);
    text::lemma_first_of(c, '.');
    // The blanks in front go, those in front of the dot stay until the name is looked up.
    text::lemma_trimmed_before(c, '.');
    assert(c + "."@ =~= c.push('.'));
    let q = text::trimmed(c + "."@);
    assert(q == head.push('.'));
    text::lemma_first_of(q, '.');
    let at = text::first_of(q, '.');
    if at < head.len() {
        assert(q[at] == head[at]);
        assert(head[at] == c[c.len() - head.len() + at]);
    }
    assert(q[head.len() as int] == '.');
    assert(at == head.len());
    assert(q.take(at) =~= head);
    assert(q.skip(at + 1) =~= Seq::<char>::empty());
    assert(text::trimmed(head) == text::trimmed(c));
    assert(text::trimmed(Seq::<char>::empty()) == Seq::<char>::empty());
    // Without the dot there is none to split at.
    let t = text::trimmed(c);
    text::lemma_first_of(t, '.');
    let k = text::first_of(t, '.');
    if k < t.len() {
        assert(t[k] == head[k]);
        assert(head[k] == c[c.len() - head.len() + k]);
    }
}

/// Letter case does not matter where a query names a member.
pub proof fn law_member_lookup_ignores_case(
    index: ApiIndex,
    class: Seq<char>,
    a: Seq<char>,
    b: Seq<char>,
)
    requires
        text::lowered(a) == text::lowered(b),
        a.len() > 0,
        b.len() > 0,
        owner_of(index.classes@, index.chain(class), text::lowered(a)) < index.chain(class).len(),
    ensures
        index.member_answer(class, a) == index.member_answer(class, b),
{
}

/// Lookups follow inheritance for a bounded number of steps, starting from the class itself, so
/// that a dump whose classes inherit in a circle still gets an answer.
pub proof fn law_the_chain_is_bounded(classes: Seq<Class>, name: Seq<char>, limit: nat)
    ensures
        chain_text(classes, name, limit).len() <= limit,
        limit > 0 && class_named(classes, name) is Some ==> chain_text(classes, name, limit).len()
            > 0 && chain_text(classes, name, limit)[0] == class_named(classes, name)->Some_0.name@,
    decreases limit,
{
    if limit > 0 {
        match class_named(classes, name) {
            Some(c) => match c.inherits {
                Some(p) => {
                    law_the_chain_is_bounded(classes, p@, (limit - 1) as nat);
                },
                None => {},
            },
            None => {},
        }
    }
}

/// A member is found through the inheritance chain, on the nearest class that declares it.
pub proof fn law_the_nearest_declaration_is_found(
    classes: Seq<Class>,
    chain: Seq<Seq<char>>,
    want: Seq<char>,
    i: int,
)
    requires
        0 <= i < chain.len(),
        class_named(classes, chain[i]) is Some,
        member_text(class_named(classes, chain[i])->Some_0, want) is Some,
    ensures
        0 <= owner_of(classes, chain, want) <= i,
        class_named(classes, chain[owner_of(classes, chain, want)]) is Some,
        member_text(
            class_named(classes, chain[owner_of(classes, chain, want)])->Some_0,
            want,
        ) is Some,
    decreases chain.len(),
{
    let declared = match class_named(classes, chain[0]) {
        Some(c) => member_text(c, want) is Some,
        None => false,
    };
    if !declared {
        assert(chain.skip(1)[i - 1] == chain[i]);
        law_the_nearest_declaration_is_found(classes, chain.skip(1), want, i - 1);
        let k = owner_of(classes, chain.skip(1), want);
        assert(chain.skip(1)[k] == chain[k + 1]);
    }
}

proof fn lemma_stripped_start(s: Seq<char>, c: char)
    ensures
        text::stripped_start(s, c).len() <= s.len(),
        text::stripped_start(s, c) == s.skip(s.len() - text::stripped_start(s, c).len()),
        text::stripped_start(s, c).len() > 0 ==> text::stripped_start(s, c)[0] != c,
    decreases s.len(),
{
    if s.len() > 0 && s[0] == c {
        lemma_stripped_start(s.skip(1), c);
        let n = text::stripped_start(s, c).len();
        assert(s.skip(1).skip(s.len() - 1 - n) =~= s.skip(s.len() - n));
    } else {
        assert(s.skip(0) =~= s);
    }
}

proof fn lemma_stripped_end(s: Seq<char>, c: char)
    ensures
        text::stripped_end(s, c).len() <= s.len(),
        text::stripped_end(s, c) == s.take(text::stripped_end(s, c).len() as int),
        text::stripped_end(s, c).len() > 0 ==> text::stripped_end(s, c).last() != c,
    decreases s.len(),
{
    if s.len() > 0 && s.last() == c {
        lemma_stripped_end(s.drop_last(), c);
        let n = text::stripped_end(s, c).len();
        assert(s.drop_last().take(n as int) =~= s.take(n as int));
    } else {
        assert(s.take(s.len() as int) =~= s);
    }
}

/// A name that may stand in the cache as it is: not empty, of letters, digits, dots, dashes and
/// underscores alone, without a dash at either end, and neither the current nor the parent
/// directory.
pub open spec fn is_clean_segment(s: Seq<char>) -> bool {
    &&& s.len() > 0
    &&& forall|i: int| 0 <= i < s.len() ==> is_version_char(#[trigger] s[i])
    &&& s[0] != '-'
    &&& s.last() != '-'
    &&& s != "."@
    &&& s != ".."@
}

/// Whatever the engine calls its version, its place in the cache has a clean name, and a clean name
/// is kept as it is.
pub proof fn law_versions_become_clean_segments(version: Seq<char>)
    ensures
        is_clean_segment(version_segment(version)),
        version_segment(version) != "."@ && version_segment(version) != ".."@,
        is_clean_segment(version) ==> version_segment(version) == version,
        version_segment(version_segment(version)) == version_segment(version),
{
    let d = dashed(text::trimmed(version));
    let front = text::stripped_start(d, '-');
    lemma_stripped_start(d, '-');
    lemma_stripped_end(front, '-');
    reveal_strlit("unknown");
    reveal_strlit(".");
    reveal_strlit("..");
    let segment = version_segment(version);
    assert(is_clean_segment(segment)) by {
        if segment == text::stripped(d, '-') {
            assert forall|i: int| 0 <= i < segment.len() implies is_version_char(
                #[trigger] segment[i],
            ) by {
                assert(segment[i] == front[i]);
                assert(front[i] == d[d.len() - front.len() + i]);
            }
        }
    }
    lemma_clean_is_kept(segment);
    if is_clean_segment(version) {
        lemma_clean_is_kept(version);
    }
}

proof fn lemma_clean_is_kept(s: Seq<char>)
    requires
        is_clean_segment(s),
    ensures
        version_segment(s) == s,
{
    assert(is_version_char(s[0]) && is_version_char(s[s.len() - 1]));
    text::lemma_trimmed_is_fixed(s);
    assert(dashed(s) =~= s);
}

/// A clean name is one segment of a path: it holds no separator and names no drive.
pub proof fn law_a_clean_segment_has_no_separator(s: Seq<char>, i: int)
    requires
        is_clean_segment(s),
        0 <= i < s.len(),
    ensures
        !path::is_separator(s[i]),
        s[i] != ':',
{
    assert(is_version_char(s[i]));
}

/// Whatever the engine calls its version, its dump is cached in a directory of its own right inside
/// the cache: the cache's path, a separator, and a clean name behind it.
pub proof fn law_a_version_is_cached_in_a_child_of_the_cache(data_dir: Seq<char>, version: Seq<char>)
    ensures
        is_clean_segment(version_segment(version)),
        cache_dir_of(data_dir, version) == path::joined(data_dir, CACHE_SUBDIR@) + "\\"@
            + version_segment(version),
{
    let segment = version_segment(version);
    law_versions_become_clean_segments(version);
    assert forall|i: int| 0 <= i < segment.len() implies !path::is_separator(#[trigger] segment[i])
        && segment[i] != ':' by {
        law_a_clean_segment_has_no_separator(segment, i);
    }
    reveal_strlit("api");
    reveal_strlit(".");
    reveal_strlit("..");
    assert(CACHE_SUBDIR@.len() == 3 && "."@.len() == 1 && ".."@.len() == 2);
    path::law_names_stack(data_dir, CACHE_SUBDIR@, segment);
}

/// A search lists a bounded number of entries per section.
pub proof fn law_sections_are_bounded(items: Seq<Seq<char>>)
    ensures
        capped(items, SEARCH_LIMIT as nat).len() <= SEARCH_LIMIT,
        items.len() <= SEARCH_LIMIT ==> capped(items, SEARCH_LIMIT as nat) == items,
{
}

// ---- what the reference is for -------------------------------------------------------------------

/// No item has that lowercased name.
pub open spec fn undeclared<T: Named>(items: Seq<T>, want: Seq<char>) -> bool {
    forall|i: int| 0 <= i < items.len() ==> text::lowered((#[trigger] items[i]).label()) != want
}

/// The item at `i` is the first whose lowercased name is `want`.
pub open spec fn is_first<T: Named>(items: Seq<T>, i: int, want: Seq<char>) -> bool {
    &&& 0 <= i < items.len()
    &&& text::lowered(items[i].label()) == want
    &&& forall|j: int| 0 <= j < i ==> text::lowered((#[trigger] items[j]).label()) != want
}

/// Looking for a name finds the first item that has it, and nothing where none has.
pub proof fn law_the_first_of_a_name_is_found<T: Named>(items: Seq<T>, want: Seq<char>, i: int)
    ensures
        is_first(items, i, want) ==> position(items, want) == i,
        undeclared(items, want) ==> position(items, want) == items.len(),
        position(items, want) < items.len() ==> !undeclared(items, want),
        0 <= position(items, want) <= items.len(),
    decreases items.len(),
{
    if items.len() > 0 && text::lowered(items[0].label()) != want {
        let rest = items.skip(1);
        law_the_first_of_a_name_is_found(rest, want, i - 1);
        if is_first(items, i, want) {
            assert(rest[i - 1] == items[i]);
            assert forall|j: int| 0 <= j < i - 1 implies text::lowered((#[trigger] rest[j]).label())
                != want by {
                assert(rest[j] == items[j + 1]);
            }
        }
        if undeclared(items, want) {
            assert forall|j: int| 0 <= j < rest.len() implies text::lowered(
                (#[trigger] rest[j]).label(),
            ) != want by {
                assert(rest[j] == items[j + 1]);
            }
        }
    }
}

/// What a thing is called is its name.
pub proof fn law_names(
    c: Class,
    m: Method,
    p: Property,
    f: Member,
    s: Signal,
    k: Constant,
    e: Enum,
)
    ensures
        c.label() == c.name@,
        m.label() == m.name@,
        p.label() == p.name@,
        f.label() == f.name@,
        s.label() == s.name@,
        k.label() == k.name@,
        e.label() == e.name@,
{
}

/// The method that is asked for is the one that is shown: its class and its own name in the heading,
/// its own signature and its own description beneath.
pub proof fn law_a_method_is_shown(c: Class, i: int, want: Seq<char>)
    requires
        is_first(c.methods@, i, want),
    ensures
        ({
            let x = c.methods@[i];
            &&& text::lowered(x.name@) == want
            &&& member_text(c, want) == Some(
                c.name@ + "."@ + x.name@ + " ("@ + "method"@ + ")\n"@ + signature_text(x) + "\n\n"@
                    + unmarked(x.description@) + "\n"@,
            )
        }),
{
    law_the_first_of_a_name_is_found(c.methods@, want, i);
}

/// The property that is asked for, where no method has the name.
pub proof fn law_a_property_is_shown(c: Class, i: int, want: Seq<char>)
    requires
        undeclared(c.methods@, want),
        is_first(c.properties@, i, want),
    ensures
        ({
            let x = c.properties@[i];
            &&& text::lowered(x.name@) == want
            &&& member_text(c, want) == Some(
                c.name@ + "."@ + x.name@ + " ("@ + "property"@ + ")\n"@ + (x.name@ + ": "@ + x.kind@
                    + accessors_text(x)) + "\n\n"@ + unmarked(x.description@) + "\n"@,
            )
        }),
{
    law_the_first_of_a_name_is_found(c.methods@, want, 0);
    law_the_first_of_a_name_is_found(c.properties@, want, i);
}

/// The plain member that is asked for, where no method or property has the name.
pub proof fn law_a_plain_member_is_shown(c: Class, i: int, want: Seq<char>)
    requires
        undeclared(c.methods@, want),
        undeclared(c.properties@, want),
        is_first(c.members@, i, want),
    ensures
        ({
            let x = c.members@[i];
            &&& text::lowered(x.name@) == want
            &&& member_text(c, want) == Some(
                c.name@ + "."@ + x.name@ + " ("@ + "member"@ + ")\n"@ + (x.name@ + ": "@ + x.kind@)
                    + "\n\n"@ + unmarked(x.description@) + "\n"@,
            )
        }),
{
    law_the_first_of_a_name_is_found(c.methods@, want, 0);
    law_the_first_of_a_name_is_found(c.properties@, want, 0);
    law_the_first_of_a_name_is_found(c.members@, want, i);
}

/// The signal that is asked for, with its arguments, where nothing above has the name.
pub proof fn law_a_signal_is_shown(c: Class, i: int, want: Seq<char>)
    requires
        undeclared(c.methods@, want),
        undeclared(c.properties@, want),
        undeclared(c.members@, want),
        is_first(c.signals@, i, want),
    ensures
        ({
            let x = c.signals@[i];
            &&& text::lowered(x.name@) == want
            &&& member_text(c, want) == Some(
                c.name@ + "."@ + x.name@ + " ("@ + "signal"@ + ")\n"@ + (x.name@ + "("@
                    + arguments_text(x.arguments@) + ")"@) + "\n\n"@ + unmarked(x.description@)
                    + "\n"@,
            )
        }),
{
    law_the_first_of_a_name_is_found(c.methods@, want, 0);
    law_the_first_of_a_name_is_found(c.properties@, want, 0);
    law_the_first_of_a_name_is_found(c.members@, want, 0);
    law_the_first_of_a_name_is_found(c.signals@, want, i);
}

/// The constant that is asked for, with its value, where nothing above has the name.
pub proof fn law_a_constant_is_shown(c: Class, i: int, want: Seq<char>)
    requires
        undeclared(c.methods@, want),
        undeclared(c.properties@, want),
        undeclared(c.members@, want),
        undeclared(c.signals@, want),
        is_first(c.constants@, i, want),
    ensures
        ({
            let x = c.constants@[i];
            &&& text::lowered(x.name@) == want
            &&& member_text(c, want) == Some(
                c.name@ + "."@ + x.name@ + " ("@ + "constant"@ + ")\n"@ + (x.name@ + " = "@
                    + value_text(x.value@)) + "\n\n"@ + unmarked(x.description@) + "\n"@,
            )
        }),
{
    law_the_first_of_a_name_is_found(c.methods@, want, 0);
    law_the_first_of_a_name_is_found(c.properties@, want, 0);
    law_the_first_of_a_name_is_found(c.members@, want, 0);
    law_the_first_of_a_name_is_found(c.signals@, want, 0);
    law_the_first_of_a_name_is_found(c.constants@, want, i);
}

/// The enum that is asked for, where nothing above has the name: its heading, and each of its values
/// with what it stands for.
pub proof fn law_an_enum_is_shown(c: Class, i: int, want: Seq<char>, k: int)
    requires
        undeclared(c.methods@, want),
        undeclared(c.properties@, want),
        undeclared(c.members@, want),
        undeclared(c.signals@, want),
        undeclared(c.constants@, want),
        is_first(c.enums@, i, want),
    ensures
        ({
            let x = c.enums@[i];
            let kind = if x.is_bitfield {
                "enum, bitfield"@
            } else {
                "enum"@
            };
            &&& text::lowered(x.name@) == want
            &&& member_text(c, want) is Some
            &&& text::begins(
                member_text(c, want)->Some_0,
                c.name@ + "."@ + x.name@ + " ("@ + kind + ")\n"@,
            )
            &&& 0 <= k < x.values@.len() ==> text::has(
                member_text(c, want)->Some_0,
                "  "@ + enum_value_text(x.values@[k]) + "\n"@,
            )
        }),
{
    law_the_first_of_a_name_is_found(c.methods@, want, 0);
    law_the_first_of_a_name_is_found(c.properties@, want, 0);
    law_the_first_of_a_name_is_found(c.members@, want, 0);
    law_the_first_of_a_name_is_found(c.signals@, want, 0);
    law_the_first_of_a_name_is_found(c.constants@, want, 0);
    law_the_first_of_a_name_is_found(c.enums@, want, i);
    let x = c.enums@[i];
    let kind = if x.is_bitfield {
        "enum, bitfield"@
    } else {
        "enum"@
    };
    let empty = Seq::<char>::empty();
    let t = member_text(c, want)->Some_0;
    let head = heading_text(c.name@, x.name@, kind);
    let lines = x.values@.map_values(|v: Constant| enum_value_text(v));
    text::law_a_text_is_found_where_it_stands(empty, empty, head, text::indented(lines));
    if 0 <= k < x.values@.len() {
        text::law_every_indented_line_is_shown(lines, k);
        assert(t =~= head + text::indented(lines) + empty);
        text::lemma_has_part(t, head, text::indented(lines), empty);
        text::lemma_has_through(t, text::indented(lines), "  "@ + lines[k] + "\n"@);
    }
}

/// A value of an enum is shown by itself, under the enum that holds it, where nothing else has the
/// name.
pub proof fn law_an_enum_value_is_shown(c: Class, e: int, i: int, want: Seq<char>)
    requires
        undeclared(c.methods@, want),
        undeclared(c.properties@, want),
        undeclared(c.members@, want),
        undeclared(c.signals@, want),
        undeclared(c.constants@, want),
        undeclared(c.enums@, want),
        0 <= e < c.enums@.len(),
        is_first(c.enums@[e].values@, i, want),
        forall|d: int| 0 <= d < e ==> undeclared((#[trigger] c.enums@[d]).values@, want),
    ensures
        ({
            let x = c.enums@[e].values@[i];
            &&& text::lowered(x.name@) == want
            &&& member_text(c, want) == Some(
                c.name@ + "."@ + x.name@ + " ("@ + ("value of enum "@ + c.enums@[e].name@) + ")\n"@
                    + (x.name@ + " = "@ + value_text(x.value@)) + "\n\n"@ + unmarked(x.description@)
                    + "\n"@,
            )
        }),
{
    law_the_first_of_a_name_is_found(c.methods@, want, 0);
    law_the_first_of_a_name_is_found(c.properties@, want, 0);
    law_the_first_of_a_name_is_found(c.members@, want, 0);
    law_the_first_of_a_name_is_found(c.signals@, want, 0);
    law_the_first_of_a_name_is_found(c.constants@, want, 0);
    law_the_first_of_a_name_is_found(c.enums@, want, 0);
    law_the_first_of_a_name_is_found(c.enums@[e].values@, want, i);
    lemma_enum_with_is(c.enums@, want, e);
}

proof fn lemma_enum_with_is(enums: Seq<Enum>, want: Seq<char>, e: int)
    requires
        0 <= e <= enums.len(),
        e < enums.len() ==> position(enums[e].values@, want) < enums[e].values@.len(),
        forall|d: int| 0 <= d < e ==> undeclared((#[trigger] enums[d]).values@, want),
    ensures
        enum_with(enums, want) == e,
    decreases enums.len(),
{
    if e > 0 {
        assert(undeclared(enums[0].values@, want));
        law_the_first_of_a_name_is_found(enums[0].values@, want, 0);
        let rest = enums.skip(1);
        assert forall|d: int| 0 <= d < e - 1 implies undeclared((#[trigger] rest[d]).values@, want) by {
            assert(rest[d] == enums[d + 1]);
        }
        if e < enums.len() {
            assert(rest[e - 1] == enums[e]);
        }
        lemma_enum_with_is(rest, want, e - 1);
    }
}

/// A class that declares nothing of the name has no entry for it.
pub proof fn law_no_member_is_made_up(c: Class, want: Seq<char>)
    requires
        undeclared(c.methods@, want),
        undeclared(c.properties@, want),
        undeclared(c.members@, want),
        undeclared(c.signals@, want),
        undeclared(c.constants@, want),
        undeclared(c.enums@, want),
        forall|d: int| 0 <= d < c.enums@.len() ==> undeclared((#[trigger] c.enums@[d]).values@, want),
    ensures
        member_text(c, want) is None,
{
    law_the_first_of_a_name_is_found(c.methods@, want, 0);
    law_the_first_of_a_name_is_found(c.properties@, want, 0);
    law_the_first_of_a_name_is_found(c.members@, want, 0);
    law_the_first_of_a_name_is_found(c.signals@, want, 0);
    law_the_first_of_a_name_is_found(c.constants@, want, 0);
    law_the_first_of_a_name_is_found(c.enums@, want, 0);
    lemma_enum_with_is(c.enums@, want, c.enums@.len() as int);
}

/// An argument is shown by its name and type, and by its default where it has one.
pub proof fn law_how_an_argument_is_shown(a: Argument)
    ensures
        a.default_value is Some && a.default_value->Some_0@.len() > 0 ==> argument_text(a) == a.name@
            + ": "@ + a.kind@ + " = "@ + a.default_value->Some_0@,
        a.default_value is None || a.default_value->Some_0@.len() == 0 ==> argument_text(a) == a.name@
            + ": "@ + a.kind@,
{
}

/// Arguments are shown in order, every one of them, with commas between them.
pub proof fn law_how_arguments_are_shown(a: Seq<Argument>, b: Seq<Argument>, x: Argument)
    ensures
        arguments_text(Seq::empty()).len() == 0,
        arguments_text(seq![x]) == argument_text(x),
        a.len() > 0 && b.len() > 0 ==> arguments_text(a + b) == arguments_text(a) + ", "@
            + arguments_text(b),
{
    let f = |y: Argument| argument_text(y);
    let p = a.map_values(f);
    let q = b.map_values(f);
    assert((a + b).map_values(f) =~= p + q);
    assert(seq![x].map_values(f) =~= seq![argument_text(x)]);
    assert(Seq::<Argument>::empty().map_values(f) =~= Seq::<Seq<char>>::empty());
    text::law_joining(p, q, argument_text(x), ", "@);
}

/// A method's line starts with its name, its arguments and what it returns, `void` where nothing is
/// said.
pub proof fn law_what_a_signature_starts_with(m: Method)
    ensures
        ({
            let head = m.name@ + "("@ + arguments_text(m.arguments@) + ") -> "@;
            &&& text::begins(signature_text(m), head)
            &&& m.return_value is Some && m.return_value->Some_0.kind@.len() > 0 ==> text::begins(
                signature_text(m),
                head + m.return_value->Some_0.kind@,
            )
            &&& m.return_value is None && m.return_type is Some && m.return_type->Some_0@.len() > 0
                ==> text::begins(signature_text(m), head + m.return_type->Some_0@)
            &&& m.return_value is None && m.return_type is None ==> text::begins(
                signature_text(m),
                head + "void"@,
            )
            &&& !m.is_const && !m.is_static && !m.is_virtual && !m.is_vararg && m.category is None
                && m.return_value is None && m.return_type is None ==> signature_text(m) == head
                + "void"@
        }),
{
    let empty = Seq::<char>::empty();
    let head = m.name@ + "("@ + arguments_text(m.arguments@) + ") -> "@;
    let plain = head + return_text(m);
    let quals = if qualifiers(m).len() > 0 {
        "  ["@ + text::joined(qualifiers(m), " "@) + "]"@
    } else {
        empty
    };
    let cat = if is_given(text::opt_text(m.category)) {
        "  ("@ + m.category->0@ + ")"@
    } else {
        empty
    };
    assert(signature_text(m) =~= plain + (quals + cat));
    text::law_a_text_is_found_where_it_stands(empty, empty, plain, quals + cat);
    assert(signature_text(m) =~= head + (return_text(m) + quals + cat));
    text::law_a_text_is_found_where_it_stands(empty, empty, head, return_text(m) + quals + cat);
}

/// Every qualifier that a method has is shown, in brackets, and no other; a category is shown last.
pub proof fn law_which_qualifiers_are_shown(m: Method)
    ensures
        m.is_const <==> qualifiers(m).contains("const"@),
        m.is_static <==> qualifiers(m).contains("static"@),
        m.is_virtual <==> qualifiers(m).contains("virtual"@),
        m.is_vararg <==> qualifiers(m).contains("vararg"@),
        qualifiers(m).len() > 0 ==> text::has(
            signature_text(m),
            "  ["@ + text::joined(qualifiers(m), " "@) + "]"@,
        ),
        m.category is Some && m.category->Some_0@.len() > 0 ==> text::finishes(
            signature_text(m),
            "  ("@ + m.category->Some_0@ + ")"@,
        ),
{
    reveal_strlit("const");
    reveal_strlit("static");
    reveal_strlit("virtual");
    reveal_strlit("vararg");
    assert("const"@[0] == 'c' && "static"@[0] == 's' && "virtual"@[1] == 'i' && "vararg"@[1] == 'a'
        && "virtual"@[0] == 'v' && "vararg"@[0] == 'v');
    let q = qualifiers(m);
    if m.is_const {
        assert(q[0] == "const"@);
    }
    if m.is_static {
        assert(q[if m.is_const {
            1int
        } else {
            0int
        }] == "static"@);
    }
    if m.is_vararg {
        assert(q[q.len() - 1] == "vararg"@);
    }
    if m.is_virtual {
        assert(q[if m.is_vararg {
            q.len() - 2
        } else {
            q.len() - 1
        }] == "virtual"@);
    }
    let empty = Seq::<char>::empty();
    let plain = m.name@ + "("@ + arguments_text(m.arguments@) + ") -> "@ + return_text(m);
    let part = "  ["@ + text::joined(q, " "@) + "]"@;
    let given = is_given(text::opt_text(m.category));
    let cat = if given {
        "  ("@ + m.category->0@ + ")"@
    } else {
        empty
    };
    if q.len() > 0 {
        assert(signature_text(m) =~= plain + part + cat);
        text::lemma_has_part(signature_text(m), plain, part, cat);
        text::law_a_text_is_found_where_it_stands(empty, plain + part, cat, empty);
    } else {
        assert(signature_text(m) =~= plain + cat);
        text::law_a_text_is_found_where_it_stands(empty, plain, cat, empty);
    }
}

/// A property's accessors are shown by their names, and one without a setter as read-only.
pub proof fn law_how_accessors_are_shown(p: Property)
    ensures
        p.getter is Some && p.getter->Some_0@.len() > 0 && p.setter is Some
            && p.setter->Some_0@.len() > 0 ==> accessors_text(p) == "  [set "@ + p.setter->Some_0@
            + " / get "@ + p.getter->Some_0@ + "]"@,
        p.getter is Some && p.getter->Some_0@.len() > 0 && p.setter is None ==> accessors_text(p)
            == "  [get "@ + p.getter->Some_0@ + ", read-only]"@,
        p.getter is None ==> accessors_text(p).len() == 0,
{
    reveal_strlit("");
}

proof fn lemma_a_number_starts_with_a_digit(n: nat)
    ensures
        text::decimal(n).len() > 0,
        '0' <= text::decimal(n)[0] <= '9',
    decreases n,
{
    if n >= 10 {
        lemma_a_number_starts_with_a_digit(n / 10);
    }
}

/// A constant is shown by its value: a number as it is, a string as what it holds, and a missing one
/// as a question mark.
pub proof fn law_how_a_value_is_shown(n: i64, s: Seq<char>)
    ensures
        value_text(text::signed(n as int)) == text::signed(n as int),
        text::is_plain(s) ==> value_text(seq!['"'] + s + seq!['"']) == s,
        value_text("null"@) == "?"@,
{
    let raw = text::signed(n as int);
    if n < 0 {
        lemma_a_number_starts_with_a_digit((-(n as int)) as nat);
    } else {
        lemma_a_number_starts_with_a_digit(n as nat);
    }
    assert(raw.len() > 0 && (raw[0] == '-' || '0' <= raw[0] <= '9'));
    reveal_strlit("null");
    assert("null"@[0] == 'n');
    let q = seq!['"'] + s + seq!['"'];
    assert(q.subrange(1, q.len() - 1) =~= s);
}

/// A value of an enum is shown with its number, and with its description on the same line where it
/// has one.
pub proof fn law_how_an_enum_value_is_shown(v: Constant)
    ensures
        text::begins(enum_value_text(v), v.name@ + " = "@ + value_text(v.value@)),
        !text::is_blank(unmarked(v.description@)) && !text::has(unmarked(v.description@), "\n"@)
            ==> enum_value_text(v) == v.name@ + " = "@ + value_text(v.value@) + "  — "@ + unmarked(
            v.description@,
        ),
        text::is_blank(unmarked(v.description@)) ==> enum_value_text(v) == v.name@ + " = "@
            + value_text(v.value@),
{
    let empty = Seq::<char>::empty();
    let head = constant_text(v);
    let prose = unmarked(v.description@);
    reveal_strlit("\n");
    if text::is_blank(prose) {
        assert(head + empty =~= head);
        text::law_a_text_is_found_where_it_stands(empty, empty, head, empty);
    } else {
        let rest = "  — "@ + text::replaced(prose, "\n"@, " "@);
        assert(enum_value_text(v) =~= head + rest);
        text::law_a_text_is_found_where_it_stands(empty, empty, head, rest);
        text::law_replacing_keeps_what_stands_around(empty, "\n"@, prose, " "@);
    }
}

/// A tag in brackets is resolved where it stands, and what follows is read the same way.
#[verifier::rlimit(50)]
pub proof fn law_a_tag_is_resolved_where_it_stands(
    plain: Seq<char>,
    tag: Seq<char>,
    rest: Seq<char>,
)
    requires
        forall|i: int| 0 <= i < plain.len() ==> #[trigger] plain[i] != '[',
        forall|i: int| 0 <= i < tag.len() ==> #[trigger] tag[i] != ']',
    ensures
        unmarked(plain + seq!['['] + tag + seq![']'] + rest) == plain + tag_text(tag) + unmarked(
            rest,
        ),
        unmarked(plain + seq!['['] + tag) == plain + seq!['['] + tag,
{
    let s = plain + seq!['['] + tag + seq![']'] + rest;
    let after = tag + seq![']'] + rest;
    text::law_a_split_is_at_the_first_place(s, plain, '[', after);
    text::law_a_split_is_at_the_first_place(s, tag, ']', rest);
    assert(s =~= plain + seq!['['] + after);
    text::lemma_first_of(s, '[');
    text::lemma_first_of(after, ']');
    assert(s[plain.len() as int] == '[');
    assert(text::first_of(s, '[') == plain.len()) by {
        let k = text::first_of(s, '[');
        if k < plain.len() {
            assert(s[k] == plain[k]);
        }
    }
    assert(s.skip(plain.len() as int + 1) =~= after);
    assert(after[tag.len() as int] == ']');
    assert(text::first_of(after, ']') == tag.len()) by {
        let k = text::first_of(after, ']');
        if k < tag.len() {
            assert(after[k] == tag[k]);
        }
    }
    assert(after.take(tag.len() as int) =~= tag);
    assert(after.skip(tag.len() as int + 1) =~= rest);
    assert(s.take(plain.len() as int) =~= plain);
    let open = plain + seq!['['] + tag;
    text::lemma_first_of(open, '[');
    assert(open[plain.len() as int] == '[');
    let k = text::first_of(open, '[');
    if k < plain.len() {
        assert(open[k] == plain[k]);
    }
    assert(open.skip(k + 1) =~= tag);
    text::lemma_first_of(tag, ']');
    let c = text::first_of(tag, ']');
    if c < tag.len() {
        assert(tag[c] != ']');
    }
}

/// A tag that refers to something leaves the name of it, whatever it refers to.
pub proof fn law_a_reference_leaves_its_target(k: int, target: Seq<char>)
    requires
        0 <= k < 10,
    ensures
        ({
            let heads = seq![
                "param"@,
                "member"@,
                "method"@,
                "constant"@,
                "enum"@,
                "signal"@,
                "theme_item"@,
                "annotation"@,
                "constructor"@,
                "operator"@,
            ];
            tag_text(heads[k] + seq![' '] + target) == target
        }),
{
    reveal_strlit("param");
    reveal_strlit("member");
    reveal_strlit("method");
    reveal_strlit("constant");
    reveal_strlit("enum");
    reveal_strlit("signal");
    reveal_strlit("theme_item");
    reveal_strlit("annotation");
    reveal_strlit("constructor");
    reveal_strlit("operator");
    let heads = seq![
        "param"@,
        "member"@,
        "method"@,
        "constant"@,
        "enum"@,
        "signal"@,
        "theme_item"@,
        "annotation"@,
        "constructor"@,
        "operator"@,
    ];
    let head = heads[k];
    lemma_a_tag_with_an_argument(head, target);
    lemma_reference_is_nothing_else(head);
}

proof fn lemma_a_tag_with_an_argument(head: Seq<char>, target: Seq<char>)
    requires
        forall|i: int| 0 <= i < head.len() ==> #[trigger] head[i] != ' ' && head[i] != '=',
    ensures
        tag_head(head + seq![' '] + target) == head,
        tag_arg(head + seq![' '] + target) == Some(target),
        tag_head(head) == head,
        tag_arg(head) is None,
{
    let tag = head + seq![' '] + target;
    text::lemma_first_of(tag, ' ');
    text::lemma_first_of(tag, '=');
    text::lemma_first_of(head, ' ');
    text::lemma_first_of(head, '=');
    assert(tag[head.len() as int] == ' ');
    let a = text::first_of(tag, ' ');
    let b = text::first_of(tag, '=');
    if a < head.len() {
        assert(tag[a] == head[a]);
    }
    if b < head.len() {
        assert(tag[b] == head[b]);
    }
    assert(b != head.len()) by {
        if b == head.len() {
            assert(tag[b] == '=');
        }
    }
    assert(head_end(tag) == head.len());
    assert(tag.take(head.len() as int) =~= head);
    assert(tag.skip(head.len() as int + 1) =~= target);
    let c = text::first_of(head, ' ');
    if c < head.len() {
        assert(head[c] != ' ');
    }
    let d = text::first_of(head, '=');
    if d < head.len() {
        assert(head[d] != '=');
    }
    assert(head.take(head.len() as int) =~= head);
}

proof fn lemma_reference_is_nothing_else(head: Seq<char>)
    requires
        is_reference_tag(head),
    ensures
        !is_code_tag(head),
        !is_break_tag(head),
        !is_style_tag(head),
        head.len() > 0 && head[0] != '/',
{
    reveal_strlit("param");
    reveal_strlit("member");
    reveal_strlit("method");
    reveal_strlit("constant");
    reveal_strlit("enum");
    reveal_strlit("signal");
    reveal_strlit("theme_item");
    reveal_strlit("annotation");
    reveal_strlit("constructor");
    reveal_strlit("operator");
    lemma_first_letters();
    assert(head[0] == 'p' || head[0] == 'm' || head[0] == 'c' || head[0] == 'e' || head[0] == 's'
        || head[0] == 't' || head[0] == 'a' || head[0] == 'o');
    if head[0] == 'c' {
        assert(head[2] == 'n' && head[3] == 's');
    }
    if head[0] == 's' {
        assert(head.len() == 6);
    }
}

/// How the tags that are no references begin.
proof fn lemma_first_letters()
    ensures
        forall|h: Seq<char>| #[trigger]
            is_code_tag(h) ==> h.len() >= 4 && (h[0] == '/' || (h[0] == 'c' && h[2] == 'd')),
        forall|h: Seq<char>| #[trigger]
            is_break_tag(h) ==> h.len() >= 2 && (h[0] == '/' || h[0] == 'b' || h[0] == 'g' || (h[0]
                == 'c' && h.len() >= 3 && h[2] != 'n')),
        forall|h: Seq<char>| #[trigger]
            is_style_tag(h) ==> h.len() >= 1 && (h[0] == 'b' || h[0] == 'i' || h[0] == 'u' || (h[0]
                == 's' && h.len() == 1) || h[0] == 'k' || h[0] == 'f' || (h[0] == 'c' && h.len() >= 4
                && h[3] != 's')),
{
    reveal_strlit("code");
    reveal_strlit("/code");
    reveal_strlit("br");
    reveal_strlit("codeblock");
    reveal_strlit("codeblocks");
    reveal_strlit("gdscript");
    reveal_strlit("csharp");
    reveal_strlit("/codeblock");
    reveal_strlit("/codeblocks");
    reveal_strlit("/gdscript");
    reveal_strlit("/csharp");
    reveal_strlit("b");
    reveal_strlit("i");
    reveal_strlit("u");
    reveal_strlit("s");
    reveal_strlit("center");
    reveal_strlit("kbd");
    reveal_strlit("color");
    reveal_strlit("font");
    reveal_strlit("img");
    reveal_strlit("url");
}

/// The tags around code leave a backtick, the tags of blocks a line feed, the tags of styles nothing.
pub proof fn law_what_formatting_leaves(k: int)
    ensures
        tag_text("code"@) == "`"@ && tag_text("/code"@) == "`"@,
        0 <= k < 9 ==> tag_text(
            seq![
                "br"@,
                "codeblock"@,
                "codeblocks"@,
                "gdscript"@,
                "csharp"@,
                "/codeblock"@,
                "/codeblocks"@,
                "/gdscript"@,
                "/csharp"@,
            ][k],
        ) == "\n"@,
        0 <= k < 10 ==> tag_text(
            seq![
                "b"@,
                "i"@,
                "u"@,
                "s"@,
                "center"@,
                "kbd"@,
                "color"@,
                "font"@,
                "img"@,
                "url"@,
            ][k],
        ).len() == 0,
{
    reveal_strlit("");
    lemma_plain_tags(k);
    lemma_first_letters();
}

proof fn lemma_plain_tags(k: int)
    ensures
        tag_head("code"@) == "code"@ && tag_head("/code"@) == "/code"@,
        0 <= k < 9 ==> ({
            let t = seq![
                "br"@,
                "codeblock"@,
                "codeblocks"@,
                "gdscript"@,
                "csharp"@,
                "/codeblock"@,
                "/codeblocks"@,
                "/gdscript"@,
                "/csharp"@,
            ][k];
            tag_head(t) == t && !is_code_tag(t)
        }),
        0 <= k < 10 ==> ({
            let t = seq![
                "b"@,
                "i"@,
                "u"@,
                "s"@,
                "center"@,
                "kbd"@,
                "color"@,
                "font"@,
                "img"@,
                "url"@,
            ][k];
            tag_head(t) == t && !is_code_tag(t) && !is_break_tag(t)
        }),
{
    reveal_strlit("code");
    reveal_strlit("/code");
    reveal_strlit("br");
    reveal_strlit("codeblock");
    reveal_strlit("codeblocks");
    reveal_strlit("gdscript");
    reveal_strlit("csharp");
    reveal_strlit("/codeblock");
    reveal_strlit("/codeblocks");
    reveal_strlit("/gdscript");
    reveal_strlit("/csharp");
    reveal_strlit("b");
    reveal_strlit("i");
    reveal_strlit("u");
    reveal_strlit("s");
    reveal_strlit("center");
    reveal_strlit("kbd");
    reveal_strlit("color");
    reveal_strlit("font");
    reveal_strlit("img");
    reveal_strlit("url");
    let empty = Seq::<char>::empty();
    lemma_a_tag_with_an_argument("code"@, empty);
    lemma_a_tag_with_an_argument("/code"@, empty);
    let breaks = seq![
        "br"@,
        "codeblock"@,
        "codeblocks"@,
        "gdscript"@,
        "csharp"@,
        "/codeblock"@,
        "/codeblocks"@,
        "/gdscript"@,
        "/csharp"@,
    ];
    let styles = seq![
        "b"@,
        "i"@,
        "u"@,
        "s"@,
        "center"@,
        "kbd"@,
        "color"@,
        "font"@,
        "img"@,
        "url"@,
    ];
    assert("code"@.len() == 4 && "/code"@.len() == 5);
    if 0 <= k < 9 {
        let t = breaks[k];
        lemma_a_tag_with_an_argument(t, empty);
        assert(t.len() != 4 && t.len() != 5);
    }
    if 0 <= k < 10 {
        let t = styles[k];
        lemma_a_tag_with_an_argument(t, empty);
        assert(t.len() == 1 || t.len() == 3 || t.len() == 4 || t.len() == 5 || t.len() == 6);
        assert(t[0] != '/');
        assert("color"@[2] == 'l' && "center"@[1] == 'e' && "font"@[0] == 'f');
        assert("csharp"@[1] == 's');
    }
}

/// A bare name in brackets, such as that of a class, is left as that name; a closing tag and a tag
/// with an argument that is no reference leave nothing.
pub proof fn law_what_other_tags_leave(name: Seq<char>, arg: Seq<char>)
    requires
        forall|i: int| 0 <= i < name.len() ==> #[trigger] name[i] != ' ' && name[i] != '=',
        !is_code_tag(name) && !is_break_tag(name) && !is_style_tag(name) && !is_reference_tag(name),
    ensures
        name.len() > 0 && name[0] != '/' ==> tag_text(name) == name,
        name.len() > 0 && name[0] == '/' ==> tag_text(name).len() == 0,
        tag_text(name + seq![' '] + arg).len() == 0,
{
    reveal_strlit("");
    lemma_a_tag_with_an_argument(name, arg);
}

/// A listing says how many there are and shows every one of them.
pub proof fn law_a_listing_shows_everything(title: Seq<char>, lines: Seq<Seq<char>>, i: int)
    ensures
        lines.len() > 0 ==> text::begins(
            listing_text(title, lines),
            "\n"@ + title + " ("@ + text::decimal(lines.len()) + "):\n"@,
        ),
        0 <= i < lines.len() ==> text::has(listing_text(title, lines), "  "@ + lines[i] + "\n"@),
        lines.len() == 0 ==> listing_text(title, lines).len() == 0,
{
    let empty = Seq::<char>::empty();
    let head = "\n"@ + title + " ("@ + text::decimal(lines.len()) + "):\n"@;
    let list = text::indented(lines);
    text::law_a_text_is_found_where_it_stands(empty, empty, head, list);
    if 0 <= i < lines.len() {
        text::law_every_indented_line_is_shown(lines, i);
        assert(listing_text(title, lines) =~= head + list + empty);
        text::lemma_has_part(listing_text(title, lines), head, list, empty);
        text::lemma_has_through(listing_text(title, lines), list, "  "@ + lines[i] + "\n"@);
    }
}

/// A class page shows every property, member, method, signal, enum and constant that the class
/// declares.
pub proof fn law_a_class_page_shows_everything(
    c: Class,
    chain: Seq<Seq<char>>,
    singletons: Seq<Singleton>,
    i: int,
)
    ensures
        ({
            let page = class_text(c, chain, singletons);
            &&& 0 <= i < c.properties@.len() ==> text::has(
                page,
                "  "@ + (c.properties@[i].name@ + ": "@ + c.properties@[i].kind@) + "\n"@,
            )
            &&& 0 <= i < c.members@.len() ==> text::has(
                page,
                "  "@ + (c.members@[i].name@ + ": "@ + c.members@[i].kind@) + "\n"@,
            )
            &&& 0 <= i < c.methods@.len() ==> text::has(
                page,
                "  "@ + signature_text(c.methods@[i]) + "\n"@,
            )
            &&& 0 <= i < c.signals@.len() ==> text::has(
                page,
                "  "@ + signal_text(c.signals@[i]) + "\n"@,
            )
            &&& 0 <= i < c.enums@.len() ==> text::has(
                page,
                "  "@ + enum_line_text(c.enums@[i]) + "\n"@,
            )
            &&& 0 <= i < c.constants@.len() ==> text::has(
                page,
                "  "@ + constant_text(c.constants@[i]) + "\n"@,
            )
        }),
{
    let page = class_text(c, chain, singletons);
    let props = property_texts(c);
    let methods = c.methods@.map_values(|m: Method| signature_text(m));
    let signals = c.signals@.map_values(|s: Signal| signal_text(s));
    let enums = c.enums@.map_values(|e: Enum| enum_line_text(e));
    let constants = c.constants@.map_values(|k: Constant| constant_text(k));
    lemma_sections_of_a_page(c, chain, singletons);
    if 0 <= i < c.properties@.len() {
        assert(props[i] == typed_text(c.properties@[i].name@, c.properties@[i].kind@));
        law_a_listing_shows_everything("properties"@, props, i);
        text::lemma_has_through(page, listing_text("properties"@, props), "  "@ + props[i] + "\n"@);
    }
    if 0 <= i < c.members@.len() {
        let k = c.properties@.len() + i;
        assert(props[k] == typed_text(c.members@[i].name@, c.members@[i].kind@));
        law_a_listing_shows_everything("properties"@, props, k);
        text::lemma_has_through(page, listing_text("properties"@, props), "  "@ + props[k] + "\n"@);
    }
    if 0 <= i < methods.len() {
        law_a_listing_shows_everything("methods"@, methods, i);
        text::lemma_has_through(page, listing_text("methods"@, methods), "  "@ + methods[i] + "\n"@);
    }
    if 0 <= i < signals.len() {
        law_a_listing_shows_everything("signals"@, signals, i);
        text::lemma_has_through(page, listing_text("signals"@, signals), "  "@ + signals[i] + "\n"@);
    }
    if 0 <= i < enums.len() {
        law_a_listing_shows_everything("enums"@, enums, i);
        text::lemma_has_through(page, listing_text("enums"@, enums), "  "@ + enums[i] + "\n"@);
    }
    if 0 <= i < constants.len() {
        law_a_listing_shows_everything("constants"@, constants, i);
        text::lemma_has_through(
            page,
            listing_text("constants"@, constants),
            "  "@ + constants[i] + "\n"@,
        );
    }
}

proof fn lemma_sections_of_a_page(c: Class, chain: Seq<Seq<char>>, singletons: Seq<Singleton>)
    ensures
        ({
            let page = class_text(c, chain, singletons);
            &&& text::begins(page, class_head_text(c, chain, singletons))
            &&& text::has(page, listing_text("properties"@, property_texts(c)))
            &&& text::has(
                page,
                listing_text("methods"@, c.methods@.map_values(|m: Method| signature_text(m))),
            )
            &&& text::has(
                page,
                listing_text("signals"@, c.signals@.map_values(|s: Signal| signal_text(s))),
            )
            &&& text::has(
                page,
                listing_text("enums"@, c.enums@.map_values(|e: Enum| enum_line_text(e))),
            )
            &&& text::has(
                page,
                listing_text(
                    "constants"@,
                    c.constants@.map_values(|k: Constant| constant_text(k)),
                ),
            )
        }),
{
    let head = class_head_text(c, chain, singletons);
    let a = listing_text("properties"@, property_texts(c));
    let b = listing_text("methods"@, c.methods@.map_values(|m: Method| signature_text(m)));
    let d = listing_text("signals"@, c.signals@.map_values(|s: Signal| signal_text(s)));
    let e = listing_text("enums"@, c.enums@.map_values(|x: Enum| enum_line_text(x)));
    let f = listing_text("constants"@, c.constants@.map_values(|k: Constant| constant_text(k)));
    let end = "\nAsk for `"@ + c.name@ + ".<member>` to get one member's full description.\n"@;
    let page = class_text(c, chain, singletons);
    assert(page =~= head + a + b + d + e + f + end);
    assert(head + a + b + d + e + f + end =~= head + a + b + d + (e + f + end));
    text::lemma_has_parts(head, a, b, d, e + f + end);
    assert(head + a + b + d + e + f + end =~= (head + a + b + d) + e + (f + end));
    text::lemma_has_part(page, head + a + b + d, e, f + end);
    text::lemma_has_part(page, head + a + b + d + e, f, end);
}

/// The first line of a class page, without its line feed.
spec fn class_line(c: Class, chain: Seq<Seq<char>>, singletons: Seq<Singleton>) -> Seq<char> {
    let named = c.name@ + " ("@ + text::joined(chain, " < "@) + ")"@;
    let s = singleton_of(singletons, c.name@);
    let api = match c.api_type {
        Some(x) => "  ["@ + x@ + "]"@,
        None => Seq::empty(),
    };
    let single = if s < singletons.len() {
        "  [singleton: "@ + singletons[s].name@ + "]"@
    } else {
        Seq::empty()
    };
    named + api + single
}

proof fn lemma_class_head(c: Class, chain: Seq<Seq<char>>, singletons: Seq<Singleton>)
    ensures
        ({
            let head = class_head_text(c, chain, singletons);
            let line = class_line(c, chain, singletons) + "\n"@;
            let brief = if text::is_blank(c.brief_description@) {
                line
            } else {
                line + unmarked(c.brief_description@) + "\n"@
            };
            head == if text::is_blank(c.description@) {
                brief
            } else {
                brief + "\n"@ + unmarked(c.description@) + "\n"@
            }
        }),
        text::begins(
            class_head_text(c, chain, singletons),
            class_line(c, chain, singletons) + "\n"@,
        ),
{
    let named = c.name@ + " ("@ + text::joined(chain, " < "@) + ")"@;
    let s = singleton_of(singletons, c.name@);
    let placed = match c.api_type {
        Some(api) => named + "  ["@ + api@ + "]"@,
        None => named,
    };
    let reached = if s < singletons.len() {
        placed + "  [singleton: "@ + singletons[s].name@ + "]"@
    } else {
        placed
    };
    let line = class_line(c, chain, singletons) + "\n"@;
    assert(class_line(c, chain, singletons) =~= reached);
    assert(class_head_text(c, chain, singletons).subrange(0, line.len() as int) =~= line);
}

/// A class page opens with the class and its ancestors, the API it belongs to and, where it is one,
/// the name of the singleton.
pub proof fn law_how_a_class_page_opens(
    c: Class,
    chain: Seq<Seq<char>>,
    singletons: Seq<Singleton>,
    s: int,
)
    ensures
        ({
            let head = class_head_text(c, chain, singletons);
            &&& text::begins(class_text(c, chain, singletons), head)
            &&& text::begins(head, c.name@ + " ("@ + text::joined(chain, " < "@) + ")"@)
            &&& c.api_type is Some ==> text::has(head, "  ["@ + c.api_type->Some_0@ + "]"@)
            &&& 0 <= s < singletons.len() && singletons[s].kind@ == c.name@ && (forall|j: int|
                0 <= j < s ==> (#[trigger] singletons[j]).kind@ != c.name@) ==> text::has(
                head,
                "  [singleton: "@ + singletons[s].name@ + "]"@,
            )
        }),
{
    lemma_sections_of_a_page(c, chain, singletons);
    lemma_class_head(c, chain, singletons);
    lemma_singleton_of(singletons, c.name@, s);
    let empty = Seq::<char>::empty();
    let head = class_head_text(c, chain, singletons);
    let named = c.name@ + " ("@ + text::joined(chain, " < "@) + ")"@;
    let k = singleton_of(singletons, c.name@);
    let api = match c.api_type {
        Some(x) => "  ["@ + x@ + "]"@,
        None => empty,
    };
    let single = if k < singletons.len() {
        "  [singleton: "@ + singletons[k].name@ + "]"@
    } else {
        empty
    };
    text::lemma_has_front(head, named, api, single, "\n"@);
}

/// The prose of a class, both what is brief and what is not, stands on its page.
pub proof fn law_a_class_page_holds_its_prose(
    c: Class,
    chain: Seq<Seq<char>>,
    singletons: Seq<Singleton>,
)
    ensures
        ({
            let head = class_head_text(c, chain, singletons);
            &&& !text::is_blank(c.brief_description@) ==> text::has(
                head,
                unmarked(c.brief_description@),
            )
            &&& !text::is_blank(c.description@) ==> text::has(head, unmarked(c.description@))
        }),
{
    lemma_class_head(c, chain, singletons);
    let head = class_head_text(c, chain, singletons);
    let line = class_line(c, chain, singletons) + "\n"@;
    let prose = unmarked(c.description@);
    let short = unmarked(c.brief_description@);
    if !text::is_blank(c.brief_description@) {
        let rest = head.skip((line + short).len() as int);
        assert(head =~= line + short + rest);
        text::lemma_has_part(head, line, short, rest);
    }
    if !text::is_blank(c.description@) {
        let brief = if text::is_blank(c.brief_description@) {
            line
        } else {
            line + short + "\n"@
        };
        text::lemma_has_part(head, brief + "\n"@, prose, "\n"@);
    }
}

proof fn lemma_singleton_of(singletons: Seq<Singleton>, class: Seq<char>, s: int)
    ensures
        0 <= singleton_of(singletons, class) <= singletons.len(),
        0 <= s < singletons.len() && singletons[s].kind@ == class && (forall|j: int|
            0 <= j < s ==> (#[trigger] singletons[j]).kind@ != class) ==> singleton_of(
            singletons,
            class,
        ) == s,
    decreases singletons.len(),
{
    if singletons.len() > 0 && singletons[0].kind@ != class {
        let rest = singletons.skip(1);
        lemma_singleton_of(rest, class, s - 1);
        if 0 <= s < singletons.len() && singletons[s].kind@ == class && forall|j: int|
            0 <= j < s ==> (#[trigger] singletons[j]).kind@ != class {
            assert(rest[s - 1] == singletons[s]);
            assert forall|j: int| 0 <= j < s - 1 implies (#[trigger] rest[j]).kind@ != class by {
                assert(rest[j] == singletons[j + 1]);
            }
        }
    }
}

/// An enum's line names the enum and every value of it.
pub proof fn law_an_enum_line_names_every_value(e: Enum, i: int)
    ensures
        text::begins(enum_line_text(e), e.name@ + " { "@),
        0 <= i < e.values@.len() ==> text::has(enum_line_text(e), e.values@[i].name@),
{
    let empty = Seq::<char>::empty();
    let names = e.values@.map_values(|v: Constant| v.name@);
    let list = text::joined(names, ", "@);
    let t = enum_line_text(e);
    assert(t =~= (e.name@ + " { "@) + (list + " }"@));
    text::law_a_text_is_found_where_it_stands(empty, empty, e.name@ + " { "@, list + " }"@);
    if 0 <= i < names.len() {
        text::law_every_joined_item_is_shown(names, ", "@, i);
        text::lemma_has_part(t, e.name@ + " { "@, list, " }"@);
        text::lemma_has_through(t, list, names[i]);
    }
}

/// A class is looked up by its exact name, and of a dump's classes of one name the last one counts.
pub proof fn law_which_class_a_name_stands_for(a: Seq<Class>, b: Seq<Class>, c: Class, n: Seq<char>)
    ensures
        class_named(a, n) matches Some(x) ==> x.name@ == n && a.contains(x),
        class_named(a, n) is None ==> forall|i: int| 0 <= i < a.len() ==> (#[trigger] a[i]).name@ != n,
        latest_named(seq![c], c.name@) == Some(c),
        n != c.name@ ==> latest_named(seq![c], n) is None,
        latest_named(a + b, n) == if latest_named(b, n) is Some {
            latest_named(b, n)
        } else {
            latest_named(a, n)
        },
    decreases a.len(),
{
    lemma_class_at(a, n);
    if class_at(a, n) < a.len() {
        assert(a.contains(a[class_at(a, n)]));
    }
    reveal_with_fuel(latest_named, 2);
    assert(seq![c].skip(1) =~= Seq::<Class>::empty());
    if a.len() == 0 {
        assert(a + b =~= b);
    } else {
        law_which_class_a_name_stands_for(a.skip(1), b, c, n);
        assert((a + b).skip(1) =~= a.skip(1) + b);
    }
}

/// Each class in a chain is followed by the one it inherits from.
pub proof fn law_a_chain_goes_from_class_to_parent(
    classes: Seq<Class>,
    name: Seq<char>,
    limit: nat,
    i: int,
)
    requires
        0 <= i < chain_text(classes, name, limit).len(),
    ensures
        ({
            let chain = chain_text(classes, name, limit);
            &&& chain[0] == name
            &&& class_named(classes, chain[i]) is Some
            &&& i + 1 < chain.len() ==> class_named(classes, chain[i])->Some_0.inherits is Some
                && class_named(classes, chain[i])->Some_0.inherits->Some_0@ == chain[i + 1]
        }),
    decreases limit,
{
    let chain = chain_text(classes, name, limit);
    lemma_class_at(classes, name);
    let c = class_named(classes, name)->Some_0;
    assert(c.name@ == name);
    match c.inherits {
        Some(p) => {
            let rest = chain_text(classes, p@, (limit - 1) as nat);
            assert(chain == seq![c.name@] + rest);
            if i > 0 {
                law_a_chain_goes_from_class_to_parent(classes, p@, (limit - 1) as nat, i - 1);
                assert(chain[i] == rest[i - 1]);
                if i + 1 < chain.len() {
                    assert(chain[i + 1] == rest[i]);
                }
            } else if rest.len() > 0 {
                law_a_chain_goes_from_class_to_parent(classes, p@, (limit - 1) as nat, 0);
                assert(chain[1] == rest[0]);
            }
        },
        None => {
            assert(chain == seq![c.name@] + Seq::<Seq<char>>::empty());
        },
    }
}

/// A query for a member goes to that class and that member, in any case of the class's name.
pub proof fn law_a_member_query_goes_to_its_class(index: ApiIndex, k: int, m: Seq<char>)
    requires
        0 <= k < index.classes@.len(),
        ({
            let c = index.classes@[k].name@;
            &&& c.len() > 0
            &&& text::trimmed(c) == c
            &&& forall|i: int| 0 <= i < c.len() ==> #[trigger] c[i] != '.'
            &&& forall|j: int|
                0 <= j < index.classes@.len() && j != k ==> text::lowered(
                    #[trigger] index.classes@[j].name@,
                ) != text::lowered(c)
        }),
        m.len() > 0,
        text::trimmed(m) == m,
        !text::is_white(m[0]) && !text::is_white(m.last()),
        !text::is_white(index.classes@[k].name@[0]),
    ensures
        index.answer(index.classes@[k].name@ + seq!['.'] + m) == index.member_answer(
            index.classes@[k].name@,
            m,
        ),
{
    let c = index.classes@[k].name@;
    let q = c + seq!['.'] + m;
    assert(q[0] == c[0] && q.last() == m.last());
    text::lemma_trimmed_is_fixed(q);
    text::law_a_split_is_at_the_first_place(q, c, '.', m);
    lemma_only_class_of_a_name(index.classes@, k);
}

/// A member that the class declares itself is shown as it is declared there.
pub proof fn law_an_own_member_is_shown(index: ApiIndex, name: Seq<char>, member: Seq<char>)
    requires
        member.len() > 0,
        class_named(index.classes@, name) is Some,
        member_text(class_named(index.classes@, name)->Some_0, text::lowered(member)) is Some,
    ensures
        index.member_answer(name, member) == member_text(
            class_named(index.classes@, name)->Some_0,
            text::lowered(member),
        )->Some_0,
{
    law_the_chain_is_bounded(index.classes@, name, CHAIN_LIMIT as nat);
    lemma_class_at(index.classes@, name);
    let chain = index.chain(name);
    assert(chain[0] == name);
    law_the_nearest_declaration_is_found(index.classes@, chain, text::lowered(member), 0);
}

/// A member that only an ancestor declares is shown as the nearest of them declares it, with the
/// ancestor named.
pub proof fn law_an_inherited_member_is_shown(
    index: ApiIndex,
    name: Seq<char>,
    member: Seq<char>,
    i: int,
)
    requires
        member.len() > 0,
        0 < i < index.chain(name).len(),
        index.chain(name)[i] != name,
        class_named(index.classes@, index.chain(name)[i]) is Some,
        member_text(
            class_named(index.classes@, index.chain(name)[i])->Some_0,
            text::lowered(member),
        ) is Some,
        forall|j: int|
            0 <= j < i ==> class_named(index.classes@, #[trigger] index.chain(name)[j]) is Some
                && member_text(
                class_named(index.classes@, index.chain(name)[j])->Some_0,
                text::lowered(member),
            ) is None,
    ensures
        index.member_answer(name, member) == member_text(
            class_named(index.classes@, index.chain(name)[i])->Some_0,
            text::lowered(member),
        )->Some_0 + "\n(inherited by "@ + name + " from "@ + index.chain(name)[i] + ")\n"@,
{
    let want = text::lowered(member);
    let chain = index.chain(name);
    law_the_nearest_declaration_is_found(index.classes@, chain, want, i);
    let k = owner_of(index.classes@, chain, want);
    if k < i {
        assert(class_named(index.classes@, chain[k]) is Some);
    }
}

/// A member that no class of the chain declares is said not to be there, and where it was sought is
/// named.
pub proof fn law_a_missing_member_is_said_to_be(index: ApiIndex, name: Seq<char>, member: Seq<char>)
    requires
        member.len() > 0,
        forall|j: int|
            0 <= j < index.chain(name).len() ==> class_named(
                index.classes@,
                #[trigger] index.chain(name)[j],
            ) is None || member_text(
                class_named(index.classes@, index.chain(name)[j])->Some_0,
                text::lowered(member),
            ) is None,
    ensures
        text::begins(
            index.member_answer(name, member),
            name + " has no member "@ + text::notation(member),
        ),
        text::has(index.member_answer(name, member), text::joined(index.chain(name), " < "@)),
{
    let want = text::lowered(member);
    let chain = index.chain(name);
    lemma_no_owner(index.classes@, chain, want);
    let empty = Seq::<char>::empty();
    let t = index.member_answer(name, member);
    let head = name + " has no member "@ + text::notation(member);
    let list = text::joined(chain, " < "@);
    let end = ").\nAsk for `"@ + name + "` to list its members."@;
    assert(t =~= head + (" (searched "@ + list + end));
    text::law_a_text_is_found_where_it_stands(empty, empty, head, " (searched "@ + list + end);
    assert(t =~= (head + " (searched "@) + list + end);
    text::lemma_has_part(t, head + " (searched "@, list, end);
}

proof fn lemma_no_owner(classes: Seq<Class>, chain: Seq<Seq<char>>, want: Seq<char>)
    requires
        forall|j: int|
            0 <= j < chain.len() ==> class_named(classes, #[trigger] chain[j]) is None || member_text(
                class_named(classes, chain[j])->Some_0,
                want,
            ) is None,
    ensures
        owner_of(classes, chain, want) == chain.len(),
    decreases chain.len(),
{
    if chain.len() > 0 {
        let rest = chain.skip(1);
        assert(class_named(classes, chain[0]) is None || member_text(
            class_named(classes, chain[0])->Some_0,
            want,
        ) is None);
        assert forall|j: int| 0 <= j < rest.len() implies class_named(classes, #[trigger] rest[j]) is None
            || member_text(class_named(classes, rest[j])->Some_0, want) is None by {
            assert(rest[j] == chain[j + 1]);
        }
        lemma_no_owner(classes, rest, want);
    }
}

/// A name is a hit exactly when its lowercased form holds the needle.
pub proof fn law_what_is_a_hit(name: Seq<char>, needle: Seq<char>, a: Seq<char>, b: Seq<char>)
    ensures
        text::lowered(name) == a + needle + b ==> is_hit(name, needle),
        is_hit(name, needle) ==> exists|i: int|
            0 <= i && i + needle.len() <= text::lowered(name).len() && #[trigger] text::lowered(
                name,
            ).subrange(i, i + needle.len()) == needle,
{
    text::law_a_text_is_found_where_it_stands(text::lowered(name), a, needle, b);
}

/// The classes that a search finds are those whose names are hits, in order.
#[verifier::rlimit(50)]
pub proof fn law_which_classes_are_found(a: Seq<Class>, b: Seq<Class>, c: Class, needle: Seq<char>)
    ensures
        name_hits(a + b, needle) == name_hits(a, needle) + name_hits(b, needle),
        name_hits(seq![c], needle) == if is_hit(c.name@, needle) {
            seq![c.name@]
        } else {
            Seq::empty()
        },
    decreases b.len(),
{
    reveal_with_fuel(name_hits, 2);
    assert(seq![c].drop_last() =~= Seq::<Class>::empty());
    assert(Seq::<Seq<char>>::empty().push(c.name@) =~= seq![c.name@]);
    if b.len() == 0 {
        assert(a + b =~= a);
        assert(name_hits(a, needle) + name_hits(b, needle) =~= name_hits(a, needle));
    } else {
        law_which_classes_are_found(a, b.drop_last(), c, needle);
        assert((a + b).drop_last() =~= a + b.drop_last());
        assert(name_hits(a + b, needle) =~= name_hits(a, needle) + name_hits(b, needle));
    }
}

/// The functions that a search finds are those whose names are hits, in order and by their
/// signatures.
#[verifier::rlimit(50)]
pub proof fn law_which_functions_are_found(
    a: Seq<Method>,
    b: Seq<Method>,
    m: Method,
    needle: Seq<char>,
)
    ensures
        utility_hits(a + b, needle) == utility_hits(a, needle) + utility_hits(b, needle),
        utility_hits(seq![m], needle) == if is_hit(m.name@, needle) {
            seq![signature_text(m)]
        } else {
            Seq::empty()
        },
    decreases b.len(),
{
    reveal_with_fuel(utility_hits, 2);
    assert(seq![m].drop_last() =~= Seq::<Method>::empty());
    assert(Seq::<Seq<char>>::empty().push(signature_text(m)) =~= seq![signature_text(m)]);
    if b.len() == 0 {
        assert(a + b =~= a);
        assert(utility_hits(a, needle) + utility_hits(b, needle) =~= utility_hits(a, needle));
    } else {
        law_which_functions_are_found(a, b.drop_last(), m, needle);
        assert((a + b).drop_last() =~= a + b.drop_last());
        assert(utility_hits(a + b, needle) =~= utility_hits(a, needle) + utility_hits(b, needle));
    }
}

/// The enum values that a search finds are those whose names are hits, enum by enum and each under
/// its own enum.
#[verifier::rlimit(50)]
pub proof fn law_which_values_are_found(
    a: Seq<Constant>,
    b: Seq<Constant>,
    v: Constant,
    needle: Seq<char>,
    owner: Seq<char>,
)
    ensures
        value_hits(a + b, needle, owner) == value_hits(a, needle, owner) + value_hits(
            b,
            needle,
            owner,
        ),
        value_hits(seq![v], needle, owner) == if is_hit(v.name@, needle) {
            seq![owner + "."@ + constant_text(v)]
        } else {
            Seq::empty()
        },
    decreases b.len(),
{
    reveal_with_fuel(value_hits, 2);
    assert(seq![v].drop_last() =~= Seq::<Constant>::empty());
    let line = owner + "."@ + constant_text(v);
    assert(Seq::<Seq<char>>::empty().push(line) =~= seq![line]);
    if b.len() == 0 {
        assert(a + b =~= a);
        assert(value_hits(a, needle, owner) + value_hits(b, needle, owner) =~= value_hits(
            a,
            needle,
            owner,
        ));
    } else {
        law_which_values_are_found(a, b.drop_last(), v, needle, owner);
        assert((a + b).drop_last() =~= a + b.drop_last());
        assert(value_hits(a + b, needle, owner) =~= value_hits(a, needle, owner) + value_hits(
            b,
            needle,
            owner,
        ));
    }
}

/// The values of all enums are sought, one enum after the other.
#[verifier::rlimit(50)]
pub proof fn law_every_enum_is_searched(a: Seq<Enum>, b: Seq<Enum>, e: Enum, needle: Seq<char>)
    ensures
        enum_hits(a + b, needle) == enum_hits(a, needle) + enum_hits(b, needle),
        enum_hits(seq![e], needle) == value_hits(e.values@, needle, e.name@),
    decreases b.len(),
{
    reveal_with_fuel(enum_hits, 2);
    assert(seq![e].drop_last() =~= Seq::<Enum>::empty());
    let own = value_hits(e.values@, needle, e.name@);
    assert(Seq::<Seq<char>>::empty() + own =~= own);
    if b.len() == 0 {
        assert(a + b =~= a);
        assert(enum_hits(a, needle) + enum_hits(b, needle) =~= enum_hits(a, needle));
    } else {
        law_every_enum_is_searched(a, b.drop_last(), e, needle);
        assert((a + b).drop_last() =~= a + b.drop_last());
        assert(enum_hits(a + b, needle) =~= enum_hits(a, needle) + enum_hits(b, needle));
    }
}

/// The members that a search finds in a class are those whose names are hits, each under its class
/// and with its kind.
#[verifier::rlimit(50)]
pub proof fn law_which_members_are_found<T: Named>(
    a: Seq<T>,
    b: Seq<T>,
    x: T,
    needle: Seq<char>,
    owner: Seq<char>,
    kind: Seq<char>,
)
    ensures
        hits_among(a + b, needle, owner, kind) == hits_among(a, needle, owner, kind) + hits_among(
            b,
            needle,
            owner,
            kind,
        ),
        hits_among(seq![x], needle, owner, kind) == if is_hit(x.label(), needle) {
            seq![owner + "."@ + x.label() + " ("@ + kind + ")"@]
        } else {
            Seq::empty()
        },
    decreases b.len(),
{
    reveal_with_fuel(hits_among, 2);
    assert(seq![x].drop_last() =~= Seq::<T>::empty());
    let line = hit_text(owner, x.label(), kind);
    assert(Seq::<Seq<char>>::empty().push(line) =~= seq![line]);
    if b.len() == 0 {
        assert(a + b =~= a);
        assert(hits_among(a, needle, owner, kind) + hits_among(b, needle, owner, kind) =~= hits_among(
            a,
            needle,
            owner,
            kind,
        ));
    } else {
        law_which_members_are_found(a, b.drop_last(), x, needle, owner, kind);
        assert((a + b).drop_last() =~= a + b.drop_last());
        assert(hits_among(a + b, needle, owner, kind) =~= hits_among(a, needle, owner, kind)
            + hits_among(b, needle, owner, kind));
    }
}

/// A class is searched for methods, properties, members and signals, and the classes are searched in
/// order until there are enough hits to show.
pub proof fn law_how_far_members_are_searched(a: Seq<Class>, c: Class, needle: Seq<char>)
    ensures
        member_hits(Seq::empty(), needle).len() == 0,
        member_hits(a, needle).len() < 12 ==> member_hits(a.push(c), needle) == member_hits(a, needle)
            + hits_among(c.methods@, needle, c.name@, "method"@) + hits_among(
            c.properties@,
            needle,
            c.name@,
            "property"@,
        ) + hits_among(c.members@, needle, c.name@, "member"@) + hits_among(
            c.signals@,
            needle,
            c.name@,
            "signal"@,
        ),
        member_hits(a, needle).len() >= 12 ==> member_hits(a.push(c), needle) == member_hits(
            a,
            needle,
        ),
{
    assert(a.push(c).drop_last() =~= a);
    let w = hits_among(c.methods@, needle, c.name@, "method"@);
    let x = hits_among(c.properties@, needle, c.name@, "property"@);
    let y = hits_among(c.members@, needle, c.name@, "member"@);
    let z = hits_among(c.signals@, needle, c.name@, "signal"@);
    let e = member_hits(a, needle);
    assert(e + (w + x + y + z) =~= e + w + x + y + z);
}

/// A section shows the first twelve entries under its label, says when there are more, and is left
/// out where there are none.
pub proof fn law_what_a_section_shows(label: Seq<char>, items: Seq<Seq<char>>, i: int)
    ensures
        items.len() == 0 ==> section_text(label, items).len() == 0,
        items.len() > 0 ==> text::begins(section_text(label, items), label + ":\n"@),
        0 <= i < items.len() && i < 12 ==> text::has(
            section_text(label, items),
            "  "@ + items[i] + "\n"@,
        ),
        items.len() > 12 ==> text::finishes(section_text(label, items), "  …\n"@),
{
    let empty = Seq::<char>::empty();
    let t = section_text(label, items);
    let shown = capped(items, SEARCH_LIMIT as nat);
    let list = text::indented(shown);
    let head = label + ":\n"@;
    let end = if items.len() > SEARCH_LIMIT {
        "  …\n"@
    } else {
        empty
    };
    if items.len() > 0 {
        assert(t =~= head + list + end);
        assert(t =~= head + (list + end));
        text::law_a_text_is_found_where_it_stands(empty, empty, head, list + end);
        text::lemma_has_part(t, head, list, end);
        text::law_a_text_is_found_where_it_stands(empty, head + list, end, empty);
        if 0 <= i < items.len() && i < 12 {
            assert(shown[i] == items[i]);
            text::law_every_indented_line_is_shown(shown, i);
            text::lemma_has_through(t, list, "  "@ + items[i] + "\n"@);
        }
    }
}

/// A search shows what it finds of each kind, and says that there is nothing exactly where it finds
/// nothing.
pub proof fn law_what_a_search_shows(index: ApiIndex, q: Seq<char>, i: int)
    ensures
        ({
            let needle = text::lowered(q);
            let t = index.search_answer(q);
            let names = name_hits(index.classes@, needle);
            let members = member_hits(index.classes@, needle);
            let functions = utility_hits(index.utility@, needle);
            let values = enum_hits(index.global_enums@, needle);
            let nothing = names.len() == 0 && members.len() == 0 && functions.len() == 0
                && values.len() == 0;
            &&& nothing ==> t == "nothing in the "@ + index.version@ + " API matches "@
                + text::notation(q)
            &&& !nothing ==> text::begins(t, "no exact class named "@ + text::notation(q))
            &&& 0 <= i < names.len() && i < 12 ==> text::has(t, "  "@ + names[i] + "\n"@)
            &&& 0 <= i < members.len() && i < 12 ==> text::has(t, "  "@ + members[i] + "\n"@)
            &&& 0 <= i < functions.len() && i < 12 ==> text::has(t, "  "@ + functions[i] + "\n"@)
            &&& 0 <= i < values.len() && i < 12 ==> text::has(t, "  "@ + values[i] + "\n"@)
        }),
{
    let empty = Seq::<char>::empty();
    let needle = text::lowered(q);
    let t = index.search_answer(q);
    let names = name_hits(index.classes@, needle);
    let members = member_hits(index.classes@, needle);
    let functions = utility_hits(index.utility@, needle);
    let values = enum_hits(index.global_enums@, needle);
    let shown_f = capped(functions, SEARCH_LIMIT as nat);
    let shown_v = capped(values, SEARCH_LIMIT as nat);
    if !(names.len() == 0 && members.len() == 0 && functions.len() == 0 && values.len() == 0) {
        let head = "no exact class named "@ + text::notation(q);
        let lead = head + " — matches:\n"@;
        let a = section_text("classes"@, names);
        let b = section_text("members"@, members);
        let c = section_text("utility functions"@, shown_f);
        let d = section_text("global enum values"@, shown_v);
        assert(t == lead + a + b + c + d);
        assert(t =~= lead + a + b + c + d);
        text::lemma_has_parts(lead, a, b, c, d);
        assert(lead + a + b + c + d =~= (lead + a + b + c) + d + empty);
        text::lemma_has_part(t, lead + a + b + c, d, empty);
        assert(t =~= head + (" — matches:\n"@ + a + b + c + d));
        text::law_a_text_is_found_where_it_stands(
            empty,
            empty,
            head,
            " — matches:\n"@ + a + b + c + d,
        );
        if 0 <= i < names.len() && i < 12 {
            law_what_a_section_shows("classes"@, names, i);
            text::lemma_has_through(t, a, "  "@ + names[i] + "\n"@);
        }
        if 0 <= i < members.len() && i < 12 {
            law_what_a_section_shows("members"@, members, i);
            text::lemma_has_through(t, b, "  "@ + members[i] + "\n"@);
        }
        if 0 <= i < functions.len() && i < 12 {
            assert(shown_f[i] == functions[i]);
            law_what_a_section_shows("utility functions"@, shown_f, i);
            text::lemma_has_through(t, c, "  "@ + functions[i] + "\n"@);
        }
        if 0 <= i < values.len() && i < 12 {
            assert(shown_v[i] == values[i]);
            law_what_a_section_shows("global enum values"@, shown_v, i);
            text::lemma_has_through(t, d, "  "@ + values[i] + "\n"@);
        }
    }
}

/// What is no name of a class, and no member of one, is searched for; an empty query is answered with
/// what there is to query.
pub proof fn law_what_is_searched_for(index: ApiIndex, query: Seq<char>)
    ensures
        text::is_blank(query) ==> text::begins(
            index.answer(query),
            "Godot API reference "@ + index.version@ + " — "@ + text::decimal(index.classes@.len())
                + " classes, "@,
        ),
        !text::is_blank(query) && index.named(query) < 0 && text::split_at_first(
            text::trimmed(query),
            '.',
        ) is None ==> index.answer(query) == index.search_answer(text::trimmed(query)),
{
    let empty = Seq::<char>::empty();
    text::lemma_trimmed_twice(query);
    let head = "Godot API reference "@ + index.version@ + " — "@ + text::decimal(
        index.classes@.len(),
    ) + " classes, "@;
    let rest = text::decimal(index.global_enums@.len()) + " global enums, "@ + text::decimal(
        index.utility@.len(),
    ) + " utility functions, "@ + text::decimal(index.singletons@.len())
        + " singletons.\nQuery a class (`Node2D`), a member (`Sprite2D.frame_coords`), or any substring to search."@;
    assert(index.overview_text() =~= head + rest);
    text::law_a_text_is_found_where_it_stands(empty, empty, head, rest);
}

/// The version is the first line that starts with a digit and holds a dot, without the blanks around
/// it.
pub proof fn law_which_line_is_the_version(lines: Seq<Seq<char>>, i: int)
    requires
        0 <= i <= lines.len(),
        i < lines.len() ==> is_version_line(lines[i]),
        forall|j: int| 0 <= j < i ==> !is_version_line(#[trigger] lines[j]),
    ensures
        i < lines.len() ==> version_among(lines) == Some(text::trimmed(lines[i])),
        i == lines.len() ==> version_among(lines) is None,
    decreases lines.len(),
{
    if i > 0 {
        assert(!is_version_line(lines[0]));
        let rest = lines.skip(1);
        assert forall|j: int| 0 <= j < i - 1 implies !is_version_line(#[trigger] rest[j]) by {
            assert(rest[j] == lines[j + 1]);
        }
        if i < lines.len() {
            assert(rest[i - 1] == lines[i]);
        }
        law_which_line_is_the_version(rest, i - 1);
    }
}

/// A line reads like a version exactly when, without the blanks around it, it starts with a digit and
/// holds a dot.
pub proof fn law_what_reads_like_a_version(line: Seq<char>)
    ensures
        is_version_line(line) <==> text::trimmed(line).len() > 0 && '0' <= text::trimmed(line)[0]
            <= '9' && text::trimmed(line).contains('.'),
{
    let t = text::trimmed(line);
    text::lemma_first_of(t, '.');
    let k = text::first_of(t, '.');
    if k < t.len() {
        assert(t[k] == '.');
    }
    if t.contains('.') {
        let j = t.index_of('.');
        assert(t[j] == '.');
    }
}

/// In a version that becomes a name in the cache, a character that cannot stand there becomes a dash
/// and what stands around it is kept.
pub proof fn law_other_characters_become_dashes(a: Seq<char>, x: char, b: Seq<char>)
    requires
        is_clean_segment(a),
        is_clean_segment(b),
        !(text::is_letter(x) || text::is_digit(x) || x == '.' || x == '-' || x == '_'),
    ensures
        version_segment(a + seq![x] + b) == a + seq!['-'] + b,
{
    let v = a + seq![x] + b;
    let want = a + seq!['-'] + b;
    assert(is_version_char(a[0]) && is_version_char(b[b.len() - 1]));
    assert(v[0] == a[0] && v.last() == b[b.len() - 1]);
    text::lemma_trimmed_is_fixed(v);
    assert(dashed(v) =~= want) by {
        assert forall|i: int| 0 <= i < v.len() implies dashed(v)[i] == want[i] by {
            if i < a.len() {
                assert(is_version_char(a[i]));
            } else if i > a.len() {
                assert(v[i] == b[i - a.len() - 1]);
                assert(is_version_char(b[i - a.len() - 1]));
            }
        }
    }
    assert(want[0] == a[0] && want.last() == b[b.len() - 1]);
    reveal_strlit(".");
    reveal_strlit("..");
    assert(want.len() >= 3 && "."@.len() == 1 && ".."@.len() == 2);
}

/// Versions with names of their own are cached apart.
pub proof fn law_versions_are_cached_apart(data_dir: Seq<char>, a: Seq<char>, b: Seq<char>)
    requires
        is_clean_segment(a),
        is_clean_segment(b),
        a != b,
    ensures
        cache_dir_of(data_dir, a) != cache_dir_of(data_dir, b),
{
    law_versions_become_clean_segments(a);
    law_versions_become_clean_segments(b);
    law_a_version_is_cached_in_a_child_of_the_cache(data_dir, a);
    law_a_version_is_cached_in_a_child_of_the_cache(data_dir, b);
    let root = path::joined(data_dir, CACHE_SUBDIR@) + "\\"@;
    assert((root + a).skip(root.len() as int) =~= a);
    assert((root + b).skip(root.len() as int) =~= b);
}

/// The index of a dump serves what the dump says: of the classes of one name the last one, the
/// engine's version, and everything that is global as it stands.
pub proof fn law_the_index_serves_the_dump(
    index: ApiIndex,
    api: Api,
    a: Seq<Class>,
    c: Class,
    b: Seq<Class>,
)
    requires
        index.holds(api),
        api.classes@ + api.builtin_classes@ == a + seq![c] + b,
        forall|i: int| 0 <= i < b.len() ==> (#[trigger] b[i]).name@ != c.name@,
    ensures
        class_named(index.classes@, c.name@) == Some(c),
        index.version@ == api.header.version_full_name@,
        index.global_enums@ == api.global_enums@,
        index.utility@ == api.utility_functions@,
        index.singletons@ == api.singletons@,
{
    let all = api.classes@ + api.builtin_classes@;
    assert(class_named(index.classes@, c.name@) == latest_named(all, c.name@));
    law_which_class_a_name_stands_for(a, seq![c] + b, c, c.name@);
    law_which_class_a_name_stands_for(seq![c], b, c, c.name@);
    lemma_none_named(b, c.name@);
    assert(a + seq![c] + b =~= a + (seq![c] + b));
}

proof fn lemma_none_named(b: Seq<Class>, name: Seq<char>)
    requires
        forall|i: int| 0 <= i < b.len() ==> (#[trigger] b[i]).name@ != name,
    ensures
        latest_named(b, name) is None,
    decreases b.len(),
{
    if b.len() > 0 {
        let rest = b.skip(1);
        assert forall|i: int| 0 <= i < rest.len() implies (#[trigger] rest[i]).name@ != name by {
            assert(rest[i] == b[i + 1]);
        }
        lemma_none_named(rest, name);
    }
}

/// A dump makes an index exactly where it holds a class of either kind.
pub proof fn law_a_dump_needs_a_class(api: Api)
    ensures
        holds_no_classes(api) <==> api.classes@.len() == 0 && api.builtin_classes@.len() == 0,
{
}

/// A lowercased name stands for the last class that has it, and for none where no class has it.
pub proof fn law_which_class_a_lowercased_name_stands_for(
    classes: Seq<Class>,
    key: Seq<char>,
    k: int,
)
    ensures
        0 <= k < classes.len() && text::lowered(classes[k].name@) == key && (forall|j: int|
            k < j < classes.len() ==> text::lowered((#[trigger] classes[j]).name@) != key)
            ==> class_by_lower(classes, key) == k,
        undeclared(classes, key) ==> class_by_lower(classes, key) < 0,
    decreases classes.len(),
{
    if classes.len() > 0 && text::lowered(classes.last().name@) != key {
        let front = classes.drop_last();
        law_which_class_a_lowercased_name_stands_for(front, key, k);
        if undeclared(classes, key) {
            assert forall|j: int| 0 <= j < front.len() implies text::lowered(
                (#[trigger] front[j]).label(),
            ) != key by {
                assert(front[j] == classes[j]);
            }
        }
        if 0 <= k < classes.len() && text::lowered(classes[k].name@) == key && forall|j: int|
            k < j < classes.len() ==> text::lowered((#[trigger] classes[j]).name@) != key {
            assert(front[k] == classes[k]);
            assert forall|j: int| k < j < front.len() implies text::lowered(
                (#[trigger] front[j]).name@,
            ) != key by {
                assert(front[j] == classes[j]);
            }
        }
    } else if classes.len() > 0 {
        assert(classes[classes.len() - 1].label() == classes.last().name@);
    }
}

/// A query for a class is answered with the page of that class.
pub proof fn law_a_class_is_answered_with_its_page(index: ApiIndex, name: Seq<char>, i: int)
    requires
        class_named(index.classes@, name) is Some,
    ensures
        ({
            let c = class_named(index.classes@, name)->Some_0;
            &&& text::begins(
                index.class_answer(name),
                name + " ("@ + text::joined(index.chain(name), " < "@) + ")"@,
            )
            &&& 0 <= i < c.methods@.len() ==> text::has(
                index.class_answer(name),
                "  "@ + signature_text(c.methods@[i]) + "\n"@,
            )
        }),
{
    let c = class_named(index.classes@, name)->Some_0;
    law_which_class_a_name_stands_for(index.classes@, Seq::empty(), c, name);
    law_how_a_class_page_opens(c, index.chain(name), index.singletons@, 0);
    law_a_class_page_shows_everything(c, index.chain(name), index.singletons@, i);
    let page = index.class_answer(name);
    let head = class_head_text(c, index.chain(name), index.singletons@);
    let lead = name + " ("@ + text::joined(index.chain(name), " < "@) + ")"@;
    assert(page.subrange(0, lead.len() as int) =~= head.subrange(0, lead.len() as int)) by {
        assert(page.subrange(0, head.len() as int) == head);
        assert forall|j: int| 0 <= j < lead.len() implies page[j] == head[j] by {
            assert(page.subrange(0, head.len() as int)[j] == page[j]);
        }
    }
}

/// A chain that is shorter than its limit goes on to the last ancestor that is known.
pub proof fn law_a_chain_leaves_no_ancestor_out(classes: Seq<Class>, name: Seq<char>, limit: nat)
    requires
        class_named(classes, name) is Some,
        chain_text(classes, name, limit).len() < limit,
    ensures
        ({
            let last = class_named(classes, chain_text(classes, name, limit).last());
            &&& last is Some
            &&& last->Some_0.inherits is Some ==> class_named(
                classes,
                last->Some_0.inherits->Some_0@,
            ) is None
        }),
    decreases limit,
{
    let chain = chain_text(classes, name, limit);
    lemma_class_at(classes, name);
    let c = class_named(classes, name)->Some_0;
    match c.inherits {
        Some(p) => {
            let rest = chain_text(classes, p@, (limit - 1) as nat);
            assert(chain == seq![c.name@] + rest);
            if class_named(classes, p@) is Some {
                law_a_chain_leaves_no_ancestor_out(classes, p@, (limit - 1) as nat);
                if rest.len() > 0 {
                    assert(chain.last() == rest.last());
                } else if limit > 1 {
                    law_the_chain_is_bounded(classes, p@, (limit - 1) as nat);
                }
            } else {
                assert(rest.len() == 0);
                assert(chain.last() == name);
            }
        },
        None => {
            assert(chain == seq![c.name@] + Seq::<Seq<char>>::empty());
            assert(chain.last() == name);
        },
    }
}

/// What there is to query says how much of each kind there is.
pub proof fn law_the_overview_counts_everything(index: ApiIndex)
    ensures
        ({
            let t = index.overview_text();
            &&& text::begins(t, "Godot API reference "@ + index.version@ + " — "@)
            &&& text::has(t, text::decimal(index.classes@.len()) + " classes, "@)
            &&& text::has(t, text::decimal(index.global_enums@.len()) + " global enums, "@)
            &&& text::has(t, text::decimal(index.utility@.len()) + " utility functions, "@)
            &&& text::has(t, text::decimal(index.singletons@.len()) + " singletons.\nQuery a class (`Node2D`), a member (`Sprite2D.frame_coords`), or any substring to search."@)
        }),
{
    let empty = Seq::<char>::empty();
    let a = "Godot API reference "@ + index.version@ + " — "@;
    let b = text::decimal(index.classes@.len()) + " classes, "@;
    let c = text::decimal(index.global_enums@.len()) + " global enums, "@;
    let d = text::decimal(index.utility@.len()) + " utility functions, "@;
    let e = text::decimal(index.singletons@.len())
        + " singletons.\nQuery a class (`Node2D`), a member (`Sprite2D.frame_coords`), or any substring to search."@;
    let t = index.overview_text();
    assert(t =~= a + b + c + d + e);
    text::lemma_has_parts(a, b, c, d, e);
    text::lemma_has_part(t, a + b + c + d, e, empty);
}

/// A name that no class has is said to be none's.
pub proof fn law_an_unknown_class_is_said_to_be(index: ApiIndex, name: Seq<char>)
    requires
        forall|i: int| 0 <= i < index.classes@.len() ==> (#[trigger] index.classes@[i]).name@ != name,
    ensures
        index.class_answer(name) == "no class "@ + text::notation(name),
{
    lemma_class_at(index.classes@, name);
    let k = class_at(index.classes@, name);
    if k < index.classes@.len() {
        assert(index.classes@[k].name@ == name);
    }
}

/// In an index the classes are in the order of their names, and beside each stands its own name in
/// lower case.
pub proof fn law_an_index_is_in_order(index: ApiIndex, i: int, j: int)
    requires
        index.wf(),
        0 <= i < j < index.classes@.len(),
    ensures
        text::before(index.classes@[i].name@, index.classes@[j].name@),
        index.lower@.len() == index.classes@.len(),
        index.lower@[i]@ == text::lowered(index.classes@[i].name@),
        index.lower@[j]@ == text::lowered(index.classes@[j].name@),
{
    assert(index.lower@[i]@ == text::lowered(index.classes@[i].name@));
    assert(index.lower@[j]@ == text::lowered(index.classes@[j].name@));
}

} // verus!
