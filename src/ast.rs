use vstd::prelude::*;

verus! {

broadcast use {vstd::std_specs::vec::axiom_vec_decreases_to_view, vstd::seq::axiom_seq_index_decreases};

/// A span of text-level markup.
#[derive(Debug, PartialEq)]
pub enum Inline {
    Text(String),
    Link { text: Vec<Inline>, url: String },
    Image { alt: String, url: String },
    Strong(Vec<Inline>),
    Italic(Vec<Inline>),
    Strikethrough(Vec<Inline>),
    Code(String),
}

/// One item of a list, with the width of its leading whitespace.
#[derive(Debug, PartialEq)]
pub struct ListItem {
    pub indent: usize,
    pub checked: Option<bool>,
    pub content: Vec<Inline>,
}

/// A list is either wholly unordered or wholly ordered.
#[derive(Debug, PartialEq)]
pub enum ListType {
    Unordered(Vec<ListItem>),
    Ordered(Vec<ListItem>),
}

/// A structural unit of a document.
#[derive(Debug, PartialEq)]
pub enum Block {
    Heading { level: u8, content: Vec<Inline> },
    Paragraph(Vec<Inline>),
    Blockquote(Vec<Block>),
    List(ListType),
    FencedCodeBlock { language: Option<String>, code: String },
    HorizontalRule,
}

/// The parsed body of a document.
#[derive(Debug, PartialEq)]
pub struct Document {
    pub blocks: Vec<Block>,
}

/// Mathematical model of an [`Inline`].
pub enum InlineModel {
    Text(Seq<char>),
    Link { text: Seq<InlineModel>, url: Seq<char> },
    Image { alt: Seq<char>, url: Seq<char> },
    Strong(Seq<InlineModel>),
    Italic(Seq<InlineModel>),
    Strikethrough(Seq<InlineModel>),
    Code(Seq<char>),
}

/// Mathematical model of a [`ListItem`].
pub struct ItemModel {
    pub indent: nat,
    pub checked: Option<bool>,
    pub content: Seq<InlineModel>,
}

/// Mathematical model of a [`Block`]; lists carry `true` when ordered.
pub enum BlockModel {
    Heading { level: nat, content: Seq<InlineModel> },
    Paragraph(Seq<InlineModel>),
    Blockquote(Seq<BlockModel>),
    List { ordered: bool, items: Seq<ItemModel> },
    FencedCodeBlock { language: Option<Seq<char>>, code: Seq<char> },
    HorizontalRule,
}

pub open spec fn inline_view(i: Inline) -> InlineModel
    decreases i,
{
    match i {
        Inline::Text(s) => InlineModel::Text(s@),
        Inline::Link { text, url } => InlineModel::Link { text: inlines_view(text@), url: url@ },
        Inline::Image { alt, url } => InlineModel::Image { alt: alt@, url: url@ },
        Inline::Strong(v) => InlineModel::Strong(inlines_view(v@)),
        Inline::Italic(v) => InlineModel::Italic(inlines_view(v@)),
        Inline::Strikethrough(v) => InlineModel::Strikethrough(inlines_view(v@)),
        Inline::Code(s) => InlineModel::Code(s@),
    }
}

pub open spec fn inlines_view(s: Seq<Inline>) -> Seq<InlineModel>
    decreases s,
{
    if s.len() == 0 {
        Seq::empty()
    } else {
        inlines_view(s.drop_last()).push(inline_view(s.last()))
    }
}

} // verus!

verus! {

pub proof fn lemma_inlines_view_push(s: Seq<Inline>, x: Inline)
    ensures
        inlines_view(s.push(x)) == inlines_view(s).push(inline_view(x)),
{
    assert(s.push(x).drop_last() =~= s);
}

/// A vector of one inline element.
pub fn single(x: Inline) -> (r: Vec<Inline>)
    ensures
        inlines_view(r@) == seq![inline_view(x)],
{
    let mut r: Vec<Inline> = Vec::new();
    proof {
        lemma_inlines_view_push(r@, x);
        assert(inlines_view(r@) =~= Seq::<InlineModel>::empty());
        assert(seq![inline_view(x)] =~= Seq::<InlineModel>::empty().push(inline_view(x)));
    }
    r.push(x);
    r
}

/// How an executable parse result stands to its model.
pub open spec fn inline_result(r: Option<(Inline, usize)>, m: Option<(InlineModel, int)>, end: usize) -> bool {
    match r {
        Some((i, e)) => m == Some((inline_view(i), e as int)) && e <= end,
        None => m is None,
    }
}

pub open spec fn inlines_result(r: Option<(Vec<Inline>, usize)>, m: Option<(Seq<InlineModel>, int)>) -> bool {
    match r {
        Some((v, e)) => m == Some((inlines_view(v@), e as int)),
        None => m is None,
    }
}

} // verus!

verus! {

pub open spec fn item_view(i: ListItem) -> ItemModel {
    ItemModel { indent: i.indent as nat, checked: i.checked, content: inlines_view(i.content@) }
}

pub open spec fn items_view(s: Seq<ListItem>) -> Seq<ItemModel> {
    s.map_values(|i: ListItem| item_view(i))
}

pub open spec fn block_view(b: Block) -> BlockModel
    decreases b,
{
    match b {
        Block::Heading { level, content } => BlockModel::Heading { level: level as nat, content: inlines_view(content@) },
        Block::Paragraph(v) => BlockModel::Paragraph(inlines_view(v@)),
        Block::Blockquote(v) => BlockModel::Blockquote(blocks_view(v@)),
        Block::List(ListType::Unordered(v)) => BlockModel::List { ordered: false, items: items_view(v@) },
        Block::List(ListType::Ordered(v)) => BlockModel::List { ordered: true, items: items_view(v@) },
        Block::FencedCodeBlock { language, code } => BlockModel::FencedCodeBlock {
            language: match language {
                Some(l) => Some(l@),
                None => None,
            },
            code: code@,
        },
        Block::HorizontalRule => BlockModel::HorizontalRule,
    }
}

pub open spec fn blocks_view(s: Seq<Block>) -> Seq<BlockModel>
    decreases s,
{
    if s.len() == 0 {
        Seq::empty()
    } else {
        blocks_view(s.drop_last()).push(block_view(s.last()))
    }
}

pub proof fn lemma_blocks_view_push(s: Seq<Block>, x: Block)
    ensures
        blocks_view(s.push(x)) == blocks_view(s).push(block_view(x)),
{
    assert(s.push(x).drop_last() =~= s);
}

pub open spec fn block_result(r: Option<(Block, usize)>, m: Option<(BlockModel, int)>, end: usize) -> bool {
    match r {
        Some((b, e)) => m == Some((block_view(b), e as int)) && e <= end,
        None => m is None,
    }
}

} // verus!

verus! {

pub proof fn lemma_items_view_push(s: Seq<ListItem>, x: ListItem)
    ensures
        items_view(s.push(x)) == items_view(s).push(item_view(x)),
{
    assert(s.push(x).map_values(|i: ListItem| item_view(i)) =~= s.map_values(|i: ListItem| item_view(i)).push(item_view(x)));
}

} // verus!
