//! Block / span data model of the markdown document library, with the
//! mathematical views that the contracts speak of.

use vstd::prelude::*;

verus! {

// ---------------------------------------------------------------------------
// Executable types
// ---------------------------------------------------------------------------

#[derive(Debug, Clone, Copy, PartialEq, Eq, Structural)]
pub enum BlockType {
    Paragraph,
    Heading,
    BulletList,
    NumberedList,
    CheckList,
    CodeBlock,
    Blockquote,
    Table,
    Image,
    Divider,
    Callout,
}

#[derive(Debug, Clone, Copy, PartialEq, Eq, Structural)]
pub enum CalloutType {
    Info,
    Warning,
    Tip,
    Danger,
    Note,
}

#[derive(Debug, Clone, Copy, PartialEq, Eq, Structural)]
pub enum TableAlignment {
    Left,
    Center,
    Right,
}

#[derive(Debug, Clone, PartialEq, Eq)]
pub struct LinkData {
    pub url: String,
    pub title: Option<String>,
}

#[derive(Debug, Clone, PartialEq, Eq)]
pub struct InlineStyle {
    pub bold: bool,
    pub italic: bool,
    pub underline: bool,
    pub strikethrough: bool,
    pub code: bool,
    pub highlight: bool,
    pub link: Option<LinkData>,
}

#[derive(Debug, Clone, PartialEq, Eq)]
pub struct TextSpan {
    pub text: String,
    pub styles: InlineStyle,
}

#[derive(Debug, Clone, Copy, PartialEq, Eq)]
pub struct HeadingProps {
    pub level: u8,
}

#[derive(Debug, Clone, Copy, PartialEq, Eq)]
pub struct CheckListProps {
    pub checked: bool,
}

#[derive(Debug, Clone, PartialEq, Eq)]
pub struct CodeBlockProps {
    pub language: Option<String>,
}

#[derive(Debug, Clone, PartialEq, Eq)]
pub struct TableProps {
    pub headers: Vec<String>,
    pub rows: Vec<Vec<String>>,
    pub alignments: Option<Vec<Option<TableAlignment>>>,
}

#[derive(Debug, Clone, PartialEq, Eq)]
pub struct ImageProps {
    pub url: String,
    pub alt: Option<String>,
    pub title: Option<String>,
    pub width: Option<u32>,
    pub height: Option<u32>,
}

#[derive(Debug, Clone, Copy, PartialEq, Eq)]
pub struct CalloutProps {
    pub callout_type: CalloutType,
}

#[derive(Debug, Clone, PartialEq, Eq)]
pub enum BlockProps {
    Empty,
    Heading(HeadingProps),
    CheckList(CheckListProps),
    CodeBlock(CodeBlockProps),
    Table(TableProps),
    Image(ImageProps),
    Callout(CalloutProps),
}

#[derive(Debug, PartialEq, Eq)]
pub struct Block {
    pub id: String,
    pub block_type: BlockType,
    pub content: Vec<TextSpan>,
    pub children: Vec<Block>,
    pub props: BlockProps,
}

/// Metadata values: a JSON string, or any other JSON value kept as its
/// serialized text.
#[derive(Debug, Clone, PartialEq, Eq)]
pub enum MetaValue {
    Text(String),
    Json(String),
}

#[derive(Debug, Clone, PartialEq, Eq)]
pub struct DocumentMeta {
    pub title: Option<String>,
    pub description: Option<String>,
    pub author: Option<String>,
    pub created_at: Option<String>,
    pub updated_at: Option<String>,
    /// Additional keys, each at most once, in insertion order.
    pub extras: Vec<(String, MetaValue)>,
}

#[derive(Debug, Clone, PartialEq, Eq)]
pub struct Document {
    pub version: u32,
    pub blocks: Vec<Block>,
    pub meta: DocumentMeta,
}

/// Source of fresh block identifiers supplied by the caller.
pub trait IdGenerator {
    fn generate_id(&self) -> String;
}

pub struct DocumentOptions {
    pub generate_id: Option<std::sync::Arc<dyn IdGenerator>>,
    pub meta: Option<DocumentMeta>,
}

pub struct MarkdownParseOptions {
    pub generate_id: Option<std::sync::Arc<dyn IdGenerator>>,
}

#[derive(Debug, Clone, Copy, PartialEq, Eq, Structural)]
pub enum LineEnding {
    Lf,
    CrLf,
}

#[derive(Debug, Clone, Copy, PartialEq, Eq, Structural)]
pub enum HeadingStyle {
    Atx,
    Setext,
}

#[derive(Debug, Clone, Copy, PartialEq, Eq, Structural)]
pub enum CodeBlockStyle {
    Fenced,
    Indented,
}

#[derive(Debug, Clone, Copy, PartialEq, Eq, Structural)]
pub enum BulletChar {
    Dash,
    Asterisk,
    Plus,
}

#[derive(Debug, Clone, Copy, PartialEq, Eq, Structural)]
pub enum EmphasisChar {
    Asterisk,
    Underscore,
}

#[derive(Debug, Clone, Copy, PartialEq, Eq)]
pub struct MarkdownSerializeOptions {
    pub line_ending: LineEnding,
    pub list_indent: usize,
    pub heading_style: HeadingStyle,
    pub code_block_style: CodeBlockStyle,
    pub bullet_char: BulletChar,
    pub emphasis_char: EmphasisChar,
}

// ---------------------------------------------------------------------------
// Views
// ---------------------------------------------------------------------------

pub struct LinkV {
    pub url: Seq<char>,
    pub title: Option<Seq<char>>,
}

pub struct StyleV {
    pub bold: bool,
    pub italic: bool,
    pub underline: bool,
    pub strikethrough: bool,
    pub code: bool,
    pub highlight: bool,
    pub link: Option<LinkV>,
}

pub struct SpanV {
    pub text: Seq<char>,
    pub styles: StyleV,
}

pub enum PropsV {
    Empty,
    Heading(u8),
    CheckList(bool),
    CodeBlock(Option<Seq<char>>),
    Table {
        headers: Seq<Seq<char>>,
        rows: Seq<Seq<Seq<char>>>,
        alignments: Option<Seq<Option<TableAlignment>>>,
    },
    Image {
        url: Seq<char>,
        alt: Option<Seq<char>>,
        title: Option<Seq<char>>,
        width: Option<u32>,
        height: Option<u32>,
    },
    Callout(CalloutType),
}

pub struct BlockV {
    pub id: Seq<char>,
    pub block_type: BlockType,
    pub content: Seq<SpanV>,
    pub children: Seq<BlockV>,
    pub props: PropsV,
}

pub open spec fn opt_str(o: Option<String>) -> Option<Seq<char>> {
    match o {
        Some(s) => Some(s@),
        None => None,
    }
}

pub open spec fn strs(v: Seq<String>) -> Seq<Seq<char>> {
    v.map_values(|s: String| s@)
}

impl View for LinkData {
    type V = LinkV;

    open spec fn view(&self) -> LinkV {
        LinkV { url: self.url@, title: opt_str(self.title) }
    }
}

impl View for InlineStyle {
    type V = StyleV;

    open spec fn view(&self) -> StyleV {
        StyleV {
            bold: self.bold,
            italic: self.italic,
            underline: self.underline,
            strikethrough: self.strikethrough,
            code: self.code,
            highlight: self.highlight,
            link: match self.link {
                Some(l) => Some(l@),
                None => None,
            },
        }
    }
}

impl View for TextSpan {
    type V = SpanV;

    open spec fn view(&self) -> SpanV {
        SpanV { text: self.text@, styles: self.styles@ }
    }
}

pub open spec fn spans_view(v: Seq<TextSpan>) -> Seq<SpanV> {
    v.map_values(|s: TextSpan| s@)
}

impl View for BlockProps {
    type V = PropsV;

    open spec fn view(&self) -> PropsV {
        match self {
            BlockProps::Empty => PropsV::Empty,
            BlockProps::Heading(p) => PropsV::Heading(p.level),
            BlockProps::CheckList(p) => PropsV::CheckList(p.checked),
            BlockProps::CodeBlock(p) => PropsV::CodeBlock(opt_str(p.language)),
            BlockProps::Table(p) => PropsV::Table {
                headers: strs(p.headers@),
                rows: p.rows@.map_values(|r: Vec<String>| strs(r@)),
                alignments: match p.alignments {
                    Some(a) => Some(a@),
                    None => None,
                },
            },
            BlockProps::Image(p) => PropsV::Image {
                url: p.url@,
                alt: opt_str(p.alt),
                title: opt_str(p.title),
                width: p.width,
                height: p.height,
            },
            BlockProps::Callout(p) => PropsV::Callout(p.callout_type),
        }
    }
}

pub open spec fn block_view(b: Block) -> BlockV
    decreases b, 0nat,
{
    BlockV {
        id: b.id@,
        block_type: b.block_type,
        content: spans_view(b.content@),
        children: blocks_view_seq(b.children@),
        props: b.props@,
    }
}

pub open spec fn blocks_view_seq(s: Seq<Block>) -> Seq<BlockV>
    decreases s, 1nat,
{
    if s.len() == 0 {
        Seq::empty()
    } else {
        blocks_view_seq(s.drop_last()).push(block_view(s.last()))
    }
}

impl View for Block {
    type V = BlockV;

    open spec fn view(&self) -> BlockV {
        block_view(*self)
    }
}

pub proof fn lemma_blocks_view_seq(s: Seq<Block>)
    ensures
        blocks_view_seq(s).len() == s.len(),
        forall|i: int| 0 <= i < s.len() ==> #[trigger] blocks_view_seq(s)[i] == block_view(s[i]),
    decreases s.len(),
{
    if s.len() > 0 {
        lemma_blocks_view_seq(s.drop_last());
    }
}

pub broadcast proof fn lemma_blocks_view_seq_map(s: Seq<Block>)
    ensures
        #[trigger] blocks_view_seq(s) == s.map_values(|b: Block| b@),
{
    lemma_blocks_view_seq(s);
    assert(blocks_view_seq(s) =~= s.map_values(|b: Block| b@));
}

pub open spec fn blocks_view(v: Seq<Block>) -> Seq<BlockV> {
    v.map_values(|b: Block| b@)
}

pub open spec fn meta_value_view(v: MetaValue) -> (bool, Seq<char>) {
    match v {
        MetaValue::Text(s) => (true, s@),
        MetaValue::Json(s) => (false, s@),
    }
}

pub open spec fn extras_view(v: Seq<(String, MetaValue)>) -> Seq<(Seq<char>, (bool, Seq<char>))> {
    v.map_values(|p: (String, MetaValue)| (p.0@, meta_value_view(p.1)))
}

pub struct MetaV {
    pub title: Option<Seq<char>>,
    pub description: Option<Seq<char>>,
    pub author: Option<Seq<char>>,
    pub created_at: Option<Seq<char>>,
    pub updated_at: Option<Seq<char>>,
    pub extras: Seq<(Seq<char>, (bool, Seq<char>))>,
}

impl View for DocumentMeta {
    type V = MetaV;

    open spec fn view(&self) -> MetaV {
        MetaV {
            title: opt_str(self.title),
            description: opt_str(self.description),
            author: opt_str(self.author),
            created_at: opt_str(self.created_at),
            updated_at: opt_str(self.updated_at),
            extras: extras_view(self.extras@),
        }
    }
}

pub struct DocumentV {
    pub version: u32,
    pub blocks: Seq<BlockV>,
    pub meta: MetaV,
}

impl View for Document {
    type V = DocumentV;

    open spec fn view(&self) -> DocumentV {
        DocumentV { version: self.version, blocks: blocks_view(self.blocks@), meta: self.meta@ }
    }
}

// ---------------------------------------------------------------------------
// Small accessors and defaults
// ---------------------------------------------------------------------------

pub open spec fn block_type_name(t: BlockType) -> Seq<char> {
    match t {
        BlockType::Paragraph => "paragraph"@,
        BlockType::Heading => "heading"@,
        BlockType::BulletList => "bulletList"@,
        BlockType::NumberedList => "numberedList"@,
        BlockType::CheckList => "checkList"@,
        BlockType::CodeBlock => "codeBlock"@,
        BlockType::Blockquote => "blockquote"@,
        BlockType::Table => "table"@,
        BlockType::Image => "image"@,
        BlockType::Divider => "divider"@,
        BlockType::Callout => "callout"@,
    }
}

impl BlockType {
    /// The block type's name in the JSON document format.
    pub fn as_str(self) -> (r: &'static str)
        ensures
            r@ == block_type_name(self),
    {
        match self {
            BlockType::Paragraph => "paragraph",
            BlockType::Heading => "heading",
            BlockType::BulletList => "bulletList",
            BlockType::NumberedList => "numberedList",
            BlockType::CheckList => "checkList",
            BlockType::CodeBlock => "codeBlock",
            BlockType::Blockquote => "blockquote",
            BlockType::Table => "table",
            BlockType::Image => "image",
            BlockType::Divider => "divider",
            BlockType::Callout => "callout",
        }
    }
}

pub open spec fn plain_style() -> StyleV {
    StyleV {
        bold: false,
        italic: false,
        underline: false,
        strikethrough: false,
        code: false,
        highlight: false,
        link: None,
    }
}

pub open spec fn style_is_plain(s: StyleV) -> bool {
    !s.bold && !s.italic && !s.underline && !s.strikethrough && !s.code && !s.highlight
        && s.link is None
}

impl InlineStyle {
    pub fn plain() -> (r: InlineStyle)
        ensures
            r@ == plain_style(),
    {
        InlineStyle {
            bold: false,
            italic: false,
            underline: false,
            strikethrough: false,
            code: false,
            highlight: false,
            link: None,
        }
    }

    /// No style is applied.
    pub fn is_plain(&self) -> (r: bool)
        ensures
            r == style_is_plain(self@),
    {
        !self.bold && !self.italic && !self.underline && !self.strikethrough && !self.code
            && !self.highlight && self.link.is_none()
    }
}

impl Default for InlineStyle {
    fn default() -> (r: InlineStyle)
        ensures
            r@ == plain_style(),
    {
        InlineStyle::plain()
    }
}

impl BlockProps {
    pub fn empty() -> (r: BlockProps)
        ensures
            r@ == PropsV::Empty,
    {
        BlockProps::Empty
    }
}

pub open spec fn line_ending_seq(le: LineEnding) -> Seq<char> {
    match le {
        LineEnding::Lf => seq!['\n'],
        LineEnding::CrLf => seq!['\r', '\n'],
    }
}

impl LineEnding {
    pub fn as_str(self) -> (r: &'static str)
        ensures
            r@ == line_ending_seq(self),
    {
        proof {
            reveal_strlit("\n");
            reveal_strlit("\r\n");
        }
        match self {
            LineEnding::Lf => "\n",
            LineEnding::CrLf => "\r\n",
        }
    }
}

pub open spec fn bullet_of(b: BulletChar) -> char {
    match b {
        BulletChar::Dash => '-',
        BulletChar::Asterisk => '*',
        BulletChar::Plus => '+',
    }
}

impl BulletChar {
    pub fn as_char(self) -> (r: char)
        ensures
            r == bullet_of(self),
    {
        match self {
            BulletChar::Dash => '-',
            BulletChar::Asterisk => '*',
            BulletChar::Plus => '+',
        }
    }
}

pub open spec fn emphasis_of(e: EmphasisChar) -> char {
    match e {
        EmphasisChar::Asterisk => '*',
        EmphasisChar::Underscore => '_',
    }
}

impl EmphasisChar {
    pub fn as_char(self) -> (r: char)
        ensures
            r == emphasis_of(self),
    {
        match self {
            EmphasisChar::Asterisk => '*',
            EmphasisChar::Underscore => '_',
        }
    }
}

pub open spec fn default_serialize_options() -> MarkdownSerializeOptions {
    MarkdownSerializeOptions {
        line_ending: LineEnding::Lf,
        list_indent: 2,
        heading_style: HeadingStyle::Atx,
        code_block_style: CodeBlockStyle::Fenced,
        bullet_char: BulletChar::Dash,
        emphasis_char: EmphasisChar::Asterisk,
    }
}

impl Default for MarkdownSerializeOptions {
    fn default() -> (r: MarkdownSerializeOptions)
        ensures
            r == default_serialize_options(),
    {
        MarkdownSerializeOptions {
            line_ending: LineEnding::Lf,
            list_indent: 2,
            heading_style: HeadingStyle::Atx,
            code_block_style: CodeBlockStyle::Fenced,
            bullet_char: BulletChar::Dash,
            emphasis_char: EmphasisChar::Asterisk,
        }
    }
}

pub open spec fn empty_meta() -> MetaV {
    MetaV {
        title: None,
        description: None,
        author: None,
        created_at: None,
        updated_at: None,
        extras: Seq::empty(),
    }
}

impl Default for DocumentMeta {
    fn default() -> (r: DocumentMeta)
        ensures
            r@ == empty_meta(),
    {
        let r = DocumentMeta {
            title: None,
            description: None,
            author: None,
            created_at: None,
            updated_at: None,
            extras: Vec::new(),
        };
        assert(extras_view(r.extras@) =~= Seq::empty());
        r
    }
}

impl Default for DocumentOptions {
    fn default() -> (r: DocumentOptions)
        ensures
            r.generate_id is None,
            r.meta is None,
    {
        DocumentOptions { generate_id: None, meta: None }
    }
}

impl Default for MarkdownParseOptions {
    fn default() -> (r: MarkdownParseOptions)
        ensures
            r.generate_id is None,
    {
        MarkdownParseOptions { generate_id: None }
    }
}

} // verus!
