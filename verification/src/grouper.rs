//! From the text-drawing operations of a page to chunks: the operations are
//! cut into blocks where a text block ends, and each block becomes one group
//! of what its show-text operators draw.

use vstd::prelude::*;
use vstd::slice::slice_subrange;
use crate::chunk::{page_views, views, Chunk, ChunkView};
use crate::error::{ExtractError, Mismatch};
use crate::text::text_eq;

verus! {

/// An operand of a content-stream operation, as far as text extraction
/// reads it.
#[derive(Debug, PartialEq, Eq)]
pub enum Operand {
    /// A string, in the bytes of the font's encoding.
    Text(Vec<u8>),
    /// A nested list of operands.
    List(Vec<Operand>),
    /// A name, such as a font reference.
    Name(Vec<u8>),
    /// Any other operand; it holds no text.
    Other,
}

/// One content-stream operation: an operator and its operands.
#[derive(Clone, Debug, PartialEq, Eq)]
pub struct Operation {
    pub operator: String,
    pub operands: Vec<Operand>,
}

/// One font of a page: its reference and the name of its encoding.
#[derive(Debug)]
struct FontEntry {
    name: Vec<u8>,
    encoding: String,
}

/// The fonts of a page: the name of each font's encoding, by the font's
/// reference. No reference occurs twice. The table is a list of entries and
/// no ordered map: what an ordered map holds after an insertion is known only
/// for keys whose ordering is specified, and byte strings have none.
#[derive(Debug)]
pub struct FontTable {
    entries: Vec<FontEntry>,
}

/// What a page holds: its fonts and its operations, in drawing order.
#[derive(Clone, Debug)]
pub struct Page {
    pub fonts: FontTable,
    pub operations: Vec<Operation>,
}

/// The mathematical value of an [`Operand`].
pub enum OperandView {
    Text(Seq<u8>),
    List(Seq<OperandView>),
    Name(Seq<u8>),
    Other,
}

/// The mathematical value of an [`Operation`].
pub struct OperationView {
    pub operator: Seq<char>,
    pub operands: Seq<OperandView>,
}

/// The mathematical value of a [`Page`].
pub struct PageView {
    pub fonts: Map<Seq<u8>, Seq<char>>,
    pub operations: Seq<OperationView>,
}

impl View for Operand {
    type V = OperandView;

    open spec fn view(&self) -> OperandView
        decreases self,
    {
        match self {
            Operand::Text(bytes) => OperandView::Text(bytes@),
            Operand::List(inner) => OperandView::List(operand_views(inner@)),
            Operand::Name(bytes) => OperandView::Name(bytes@),
            Operand::Other => OperandView::Other,
        }
    }
}

/// A copy of a byte string.
fn copy_bytes(bytes: &Vec<u8>) -> (r: Vec<u8>)
    ensures
        r@ == bytes@,
{
    let mut out: Vec<u8> = Vec::new();
    let mut i: usize = 0;
    while i < bytes.len()
        invariant
            i <= bytes.len(),
            out@ == bytes@.take(i as int),
        decreases bytes.len() - i,
    {
        out.push(bytes[i]);
        proof {
            assert(out@ =~= bytes@.take(i + 1));
        }
        i += 1;
    }
    proof {
        assert(out@ =~= bytes@);
    }
    out
}

impl Clone for Operand {
    /// A copy of the operand.
    fn clone(&self) -> (r: Operand)
        ensures
            r@ == self@,
        decreases self,
    {
        match self {
            Operand::Text(bytes) => Operand::Text(copy_bytes(bytes)),
            Operand::Name(bytes) => Operand::Name(copy_bytes(bytes)),
            Operand::Other => Operand::Other,
            Operand::List(inner) => {
                let mut out: Vec<Operand> = Vec::new();
                let mut i: usize = 0;
                proof {
                    assert forall|k: int| 0 <= k < inner@.len() implies
                        decreases_to!(self => #[trigger] inner@[k]) by {
                        assert(decreases_to!(self => inner));
                        assert(decreases_to!(inner => inner@));
                        assert(decreases_to!(inner@ => inner@[k]));
                    }
                }
                while i < inner.len()
                    invariant
                        i <= inner.len(),
                        forall|k: int|
                            0 <= k < inner@.len() ==> decreases_to!(self => #[trigger] inner@[k]),
                        operand_views(out@) == operand_views(inner@).take(i as int),
                    decreases inner.len() - i,
                {
                    let ghost before = out@;
                    let copy = inner[i].clone();
                    out.push(copy);
                    proof {
                        assert(operand_views(out@) =~= operand_views(before).push(copy@));
                        assert(operand_views(out@) =~= operand_views(inner@).take(i + 1));
                    }
                    i += 1;
                }
                proof {
                    assert(operand_views(out@) =~= operand_views(inner@));
                }
                Operand::List(out)
            },
        }
    }
}

/// The values of a list of operands.
pub open spec fn operand_views(operands: Seq<Operand>) -> Seq<OperandView>
    decreases operands,
{
    Seq::new(
        operands.len(),
        |i: int|
            if 0 <= i < operands.len() {
                operands[i]@
            } else {
                arbitrary()
            },
    )
}

impl View for Operation {
    type V = OperationView;

    open spec fn view(&self) -> OperationView {
        OperationView { operator: self.operator@, operands: operand_views(self.operands@) }
    }
}

/// The values of a list of operations.
pub open spec fn operation_views(operations: Seq<Operation>) -> Seq<OperationView> {
    Seq::new(operations.len(), |i: int| operations[i]@)
}

/// The encoding that the last entry for `name` gives.
spec fn lookup(entries: Seq<FontEntry>, name: Seq<u8>) -> Option<Seq<char>>
    decreases entries.len(),
{
    if entries.len() == 0 {
        None
    } else if entries.last().name@ == name {
        Some(entries.last().encoding@)
    } else {
        lookup(entries.drop_last(), name)
    }
}

impl View for FontTable {
    type V = Map<Seq<u8>, Seq<char>>;

    closed spec fn view(&self) -> Map<Seq<u8>, Seq<char>> {
        Map::new(
            |name: Seq<u8>| lookup(self.entries@, name) is Some,
            |name: Seq<u8>| lookup(self.entries@, name).unwrap(),
        )
    }
}

impl View for Page {
    type V = PageView;

    open spec fn view(&self) -> PageView {
        PageView { fonts: self.fonts@, operations: operation_views(self.operations@) }
    }
}

/// The text that the bytes of a string operand stand for under an encoding:
/// what `lopdf::Document::decode_text` returns for them.
pub uninterp spec fn decoded_text(encoding: Option<Seq<char>>, bytes: Seq<u8>) -> Seq<char>;

/// The characters of an optional string.
pub open spec fn optional_text(s: Option<&str>) -> Option<Seq<char>> {
    match s {
        Some(s) => Some(s@),
        None => None,
    }
}

/// `lopdf::Document::decode_text`: the text of `bytes` under the encoding
/// with the given name, or under the standard encoding where none is given.
/// The result depends on the two arguments alone and is named
/// [`decoded_text`].
#[verifier::external_body]
fn decode_text(encoding: Option<&str>, bytes: &[u8]) -> (text: String)
    ensures
        text@ == decoded_text(optional_text(encoding), bytes@),
{
    lopdf::Document::decode_text(encoding, bytes)
}

/// The operator that selects a font.
pub open spec fn font_operator() -> Seq<char> {
    "Tf"@
}

/// Whether an operator shows text: a string, or a list of strings and
/// spacings.
pub open spec fn is_show_operator(operator: Seq<char>) -> bool {
    operator == "Tj"@ || operator == "TJ"@
}

/// The operator that ends a text block.
pub open spec fn block_end_operator() -> Seq<char> {
    "ET"@
}

/// The chunks that a list of operands draws under an encoding: a leaf for
/// each string, a group for each nested list, nothing for the others.
pub open spec fn operand_chunks(encoding: Option<Seq<char>>, operands: Seq<OperandView>) -> Seq<
    ChunkView,
>
    decreases operands,
{
    if operands.len() == 0 {
        seq![]
    } else {
        let before = operand_chunks(encoding, operands.drop_last());
        match operands.last() {
            OperandView::Text(bytes) => before.push(
                ChunkView::Leaf(decoded_text(encoding, bytes)),
            ),
            OperandView::List(inner) => before.push(
                ChunkView::Group(operand_chunks(encoding, inner)),
            ),
            _ => before,
        }
    }
}

/// The group that a list of operands draws under an encoding.
pub open spec fn operands_chunk(
    encoding: Option<Seq<char>>,
    operands: Seq<OperandView>,
) -> ChunkView {
    ChunkView::Group(operand_chunks(encoding, operands))
}

/// The encoding that a font-select operation selects: that of the font which
/// its first operand names, none where the page has no such font.
pub open spec fn selected(op: OperationView, fonts: Map<Seq<u8>, Seq<char>>) -> Result<
    Option<Seq<char>>,
    ExtractError,
> {
    if op.operands.len() == 0 {
        Err(ExtractError::StructuralMismatch(Mismatch::MissingFontOperand))
    } else {
        match op.operands[0] {
            OperandView::Name(name) => Ok(
                if fonts.contains_key(name) {
                    Some(fonts[name])
                } else {
                    None
                },
            ),
            _ => Err(ExtractError::StructuralMismatch(Mismatch::FontOperandNotName)),
        }
    }
}

/// The state after the operations of a block, read in order: the encoding
/// in force, and the chunks drawn so far. No encoding is in force at the
/// start. The first font-select operation without a font name fails the
/// block.
pub open spec fn scanned(
    operations: Seq<OperationView>,
    fonts: Map<Seq<u8>, Seq<char>>,
) -> Result<(Option<Seq<char>>, Seq<ChunkView>), ExtractError>
    decreases operations.len(),
{
    if operations.len() == 0 {
        Ok((None, seq![]))
    } else {
        match scanned(operations.drop_last(), fonts) {
            Err(e) => Err(e),
            Ok((encoding, chunks)) => {
                let op = operations.last();
                if op.operator == font_operator() {
                    match selected(op, fonts) {
                        Err(e) => Err(e),
                        Ok(next) => Ok((next, chunks)),
                    }
                } else if is_show_operator(op.operator) {
                    Ok((encoding, chunks.push(operands_chunk(encoding, op.operands))))
                } else {
                    Ok((encoding, chunks))
                }
            },
        }
    }
}

/// The group that a block draws.
pub open spec fn block_chunk(
    operations: Seq<OperationView>,
    fonts: Map<Seq<u8>, Seq<char>>,
) -> Result<ChunkView, ExtractError> {
    match scanned(operations, fonts) {
        Err(e) => Err(e),
        Ok((_, chunks)) => Ok(ChunkView::Group(chunks)),
    }
}

/// The blocks of a page: its operations cut at every block-end operator,
/// which belongs to no block. There is one block more than there are
/// block-end operators; a block may be empty.
pub open spec fn blocks(operations: Seq<OperationView>) -> Seq<Seq<OperationView>>
    decreases operations.len(),
{
    if operations.len() == 0 {
        seq![seq![]]
    } else {
        let before = blocks(operations.drop_last());
        if operations.last().operator == block_end_operator() {
            before.push(seq![])
        } else {
            before.update(before.len() - 1, before.last().push(operations.last()))
        }
    }
}

/// The groups that a list of blocks draws, in order; the first block that
/// fails decides the failure.
pub open spec fn block_chunks(
    blocks: Seq<Seq<OperationView>>,
    fonts: Map<Seq<u8>, Seq<char>>,
) -> Result<Seq<ChunkView>, ExtractError>
    decreases blocks.len(),
{
    if blocks.len() == 0 {
        Ok(seq![])
    } else {
        match block_chunks(blocks.drop_last(), fonts) {
            Err(e) => Err(e),
            Ok(before) => match block_chunk(blocks.last(), fonts) {
                Err(e) => Err(e),
                Ok(c) => Ok(before.push(c)),
            },
        }
    }
}

/// The chunks of a page: one group for each of its blocks.
pub open spec fn page_chunks(page: PageView) -> Result<Seq<ChunkView>, ExtractError> {
    block_chunks(blocks(page.operations), page.fonts)
}

/// The chunks of each page of a list, in order; the first page that fails
/// decides the failure.
pub open spec fn pages_chunks(pages: Seq<PageView>) -> Result<Seq<Seq<ChunkView>>, ExtractError>
    decreases pages.len(),
{
    if pages.len() == 0 {
        Ok(seq![])
    } else {
        match pages_chunks(pages.drop_last()) {
            Err(e) => Err(e),
            Ok(before) => match page_chunks(pages.last()) {
                Err(e) => Err(e),
                Ok(chunks) => Ok(before.push(chunks)),
            },
        }
    }
}

/// The values of a list of blocks.
pub open spec fn block_views(blocks: Seq<&[Operation]>) -> Seq<Seq<OperationView>> {
    Seq::new(blocks.len(), |i: int| operation_views(blocks[i]@))
}

/// The values of a list of pages.
pub open spec fn page_list_views(pages: Seq<Page>) -> Seq<PageView> {
    Seq::new(pages.len(), |i: int| pages[i]@)
}

/// What a result that holds one chunk stands for.
pub open spec fn chunk_view(r: Result<Chunk, ExtractError>) -> Result<ChunkView, ExtractError> {
    match r {
        Ok(c) => Ok(c@),
        Err(e) => Err(e),
    }
}

/// What a result that holds a list of chunks stands for.
pub open spec fn chunks_view(r: Result<Vec<Chunk>, ExtractError>) -> Result<
    Seq<ChunkView>,
    ExtractError,
> {
    match r {
        Ok(v) => Ok(views(v@)),
        Err(e) => Err(e),
    }
}

/// What a result that holds the chunks of a list of pages stands for.
pub open spec fn page_chunks_view(r: Result<Vec<Vec<Chunk>>, ExtractError>) -> Result<
    Seq<Seq<ChunkView>>,
    ExtractError,
> {
    match r {
        Ok(v) => Ok(page_views(v@)),
        Err(e) => Err(e),
    }
}

/// Whether two byte strings are the same.
pub fn bytes_eq(a: &[u8], b: &[u8]) -> (r: bool)
    ensures
        r == (a@ == b@),
{
    if a.len() != b.len() {
        return false;
    }
    let mut i: usize = 0;
    while i < a.len()
        invariant
            i <= a.len(),
            a.len() == b.len(),
            forall|j: int| 0 <= j < i ==> a@[j] == b@[j],
        decreases a.len() - i,
    {
        if a[i] != b[i] {
            return false;
        }
        i += 1;
    }
    proof {
        assert(a@ =~= b@);
    }
    true
}

/// Whether no two entries have the same reference.
spec fn distinct(entries: Seq<FontEntry>) -> bool {
    forall|i: int, j: int| 0 <= i < j < entries.len() ==> entries[i].name@ != entries[j].name@
}

/// The index of the entry for `name`, or the number of entries if there is
/// none.
spec fn position(entries: Seq<FontEntry>, name: Seq<u8>) -> int
    decreases entries.len(),
{
    if entries.len() == 0 {
        0
    } else if entries.last().name@ == name {
        entries.len() - 1
    } else {
        let before = position(entries.drop_last(), name);
        if before == entries.len() - 1 {
            entries.len() as int
        } else {
            before
        }
    }
}

/// `position` finds the entry that `lookup` reads.
proof fn lemma_position(entries: Seq<FontEntry>, name: Seq<u8>)
    ensures
        0 <= position(entries, name) <= entries.len(),
        position(entries, name) < entries.len() ==> entries[position(entries, name)].name@ == name
            && lookup(entries, name) == Some(entries[position(entries, name)].encoding@),
        position(entries, name) == entries.len() ==> lookup(entries, name) is None && forall|
            i: int,
        | 0 <= i < entries.len() ==> (#[trigger] entries[i]).name@ != name,
    decreases entries.len(),
{
    if entries.len() > 0 {
        lemma_position(entries.drop_last(), name);
        assert forall|i: int|
            0 <= i < entries.len() - 1 implies entries[i] == entries.drop_last()[i] by {}
    }
}

/// Replacing the entry for a reference changes what that reference gives,
/// and nothing else.
proof fn lemma_lookup_replaced(
    entries: Seq<FontEntry>,
    at: int,
    entry: FontEntry,
    name: Seq<u8>,
)
    requires
        distinct(entries),
        0 <= at < entries.len(),
        entries[at].name@ == entry.name@,
    ensures
        distinct(entries.update(at, entry)),
        lookup(entries.update(at, entry), name) == if name == entry.name@ {
            Some(entry.encoding@)
        } else {
            lookup(entries, name)
        },
    decreases entries.len(),
{
    let updated = entries.update(at, entry);
    if at == entries.len() - 1 {
        assert(updated.drop_last() =~= entries.drop_last());
    } else {
        assert(updated.drop_last() =~= entries.drop_last().update(at, entry));
        assert(updated.last() == entries.last());
        assert(entries.last().name@ != entries[at].name@);
        assert(distinct(entries.drop_last())) by {
            assert forall|i: int, j: int|
                0 <= i < j < entries.len() - 1 implies entries.drop_last()[i].name@
                != entries.drop_last()[j].name@ by {
                assert(entries.drop_last()[i] == entries[i]);
                assert(entries.drop_last()[j] == entries[j]);
            }
        }
        lemma_lookup_replaced(entries.drop_last(), at, entry, name);
    }
}

/// Whether two lists of entries hold the same references and encodings, in
/// the same order.
spec fn same_entries(a: Seq<FontEntry>, b: Seq<FontEntry>) -> bool {
    &&& a.len() == b.len()
    &&& forall|i: int|
        0 <= i < a.len() ==> (#[trigger] a[i]).name@ == b[i].name@ && a[i].encoding@
            == b[i].encoding@
}

/// Lists with the same entries give the same encodings.
proof fn lemma_lookup_same(a: Seq<FontEntry>, b: Seq<FontEntry>, name: Seq<u8>)
    requires
        same_entries(a, b),
    ensures
        lookup(a, name) == lookup(b, name),
    decreases a.len(),
{
    if a.len() > 0 {
        assert(a.last().name@ == b.last().name@);
        assert forall|i: int| 0 <= i < a.len() - 1 implies (#[trigger] a.drop_last()[i]).name@
            == b.drop_last()[i].name@ && a.drop_last()[i].encoding@
            == b.drop_last()[i].encoding@ by {
            assert(a.drop_last()[i] == a[i]);
        }
        lemma_lookup_same(a.drop_last(), b.drop_last(), name);
    }
}

impl Clone for FontTable {
    /// A copy of the table.
    fn clone(&self) -> (r: FontTable)
        ensures
            r@ == self@,
    {
        proof {
            use_type_invariant(self);
        }
        let mut entries: Vec<FontEntry> = Vec::new();
        let mut i: usize = 0;
        while i < self.entries.len()
            invariant
                i <= self.entries.len(),
                same_entries(entries@, self.entries@.take(i as int)),
            decreases self.entries.len() - i,
        {
            let entry = FontEntry {
                name: copy_bytes(&self.entries[i].name),
                encoding: self.entries[i].encoding.clone(),
            };
            entries.push(entry);
            i += 1;
        }
        proof {
            assert(self.entries@.take(i as int) =~= self.entries@);
            assert forall|name: Seq<u8>| #[trigger]
                lookup(entries@, name) == lookup(self.entries@, name) by {
                lemma_lookup_same(entries@, self.entries@, name);
            }
        }
        let r = FontTable { entries };
        proof {
            assert(r@ =~= self@);
        }
        r
    }
}

impl FontTable {
    /// No reference occurs twice.
    #[verifier::type_invariant]
    closed spec fn wf(self) -> bool {
        distinct(self.entries@)
    }

    /// A table without fonts.
    pub fn new() -> (r: FontTable)
        ensures
            r@ == Map::<Seq<u8>, Seq<char>>::empty(),
    {
        let r = FontTable { entries: Vec::new() };
        proof {
            assert(r@ =~= Map::<Seq<u8>, Seq<char>>::empty());
        }
        r
    }

    /// The index of the entry for `name`, or the number of entries.
    fn find(&self, name: &[u8]) -> (at: usize)
        ensures
            at == position(self.entries@, name@),
    {
        let mut i: usize = self.entries.len();
        proof {
            assert(self.entries@.take(i as int) =~= self.entries@);
        }
        while i > 0
            invariant
                i <= self.entries.len(),
                position(self.entries@, name@) == if position(self.entries@.take(i as int), name@)
                    == i {
                    self.entries@.len() as int
                } else {
                    position(self.entries@.take(i as int), name@)
                },
            decreases i,
        {
            proof {
                assert(self.entries@.take(i as int).drop_last() =~= self.entries@.take(i - 1));
                lemma_position(self.entries@.take(i - 1), name@);
            }
            if bytes_eq(self.entries[i - 1].name.as_slice(), name) {
                return i - 1;
            }
            i -= 1;
        }
        self.entries.len()
    }

    /// Puts a font in the table; it takes the place of an earlier font with
    /// the same reference.
    pub fn insert(&mut self, name: Vec<u8>, encoding: String)
        ensures
            final(self)@ == old(self)@.insert(name@, encoding@),
    {
        proof {
            use_type_invariant(&*self);
            lemma_position(self.entries@, name@);
        }
        let at = self.find(name.as_slice());
        let entry = FontEntry { name, encoding };
        let mut entries: Vec<FontEntry> = Vec::new();
        std::mem::swap(&mut entries, &mut self.entries);
        let ghost before = entries@;
        if at < entries.len() {
            proof {
                assert forall|k: Seq<u8>| #[trigger]
                    lookup(before.update(at as int, entry), k) == if k == name@ {
                        Some(encoding@)
                    } else {
                        lookup(before, k)
                    } by {
                    lemma_lookup_replaced(before, at as int, entry, k);
                }
                lemma_lookup_replaced(before, at as int, entry, name@);
            }
            entries[at] = entry;
        } else {
            entries.push(entry);
            proof {
                assert(entries@.drop_last() =~= before);
                assert(distinct(entries@));
            }
        }
        std::mem::swap(&mut entries, &mut self.entries);
        proof {
            assert(self@ =~= old(self)@.insert(name@, encoding@));
        }
    }

    /// The encoding of the font with the given reference, if the table has
    /// one.
    pub fn get(&self, name: &[u8]) -> (r: Option<&str>)
        ensures
            match r {
                Some(encoding) => self@.contains_key(name@) && self@[name@] == encoding@,
                None => !self@.contains_key(name@),
            },
    {
        proof {
            lemma_position(self.entries@, name@);
        }
        let at = self.find(name);
        if at < self.entries.len() {
            Some(self.entries[at].encoding.as_str())
        } else {
            None
        }
    }
}

/// The group that a list of operands draws under an encoding.
pub fn objects_to_chunk(encoding: Option<&str>, operands: &[Operand]) -> (r: Chunk)
    ensures
        r@ == operands_chunk(optional_text(encoding), operand_views(operands@)),
    decreases operands@,
{
    let mut chunks: Vec<Chunk> = Vec::new();
    let mut i: usize = 0;
    proof {
        assert(views(chunks@) =~= operand_chunks(
            optional_text(encoding),
            operand_views(operands@).take(0),
        ));
    }
    while i < operands.len()
        invariant
            i <= operands.len(),
            views(chunks@) == operand_chunks(
                optional_text(encoding),
                operand_views(operands@).take(i as int),
            ),
        decreases operands.len() - i,
    {
        proof {
            let upto = operand_views(operands@).take(i + 1);
            assert(upto.drop_last() =~= operand_views(operands@).take(i as int));
            assert(upto.last() == operands@[i as int]@);
        }
        let ghost before = chunks@;
        match &operands[i] {
            Operand::Text(bytes) => {
                let leaf = Chunk::leaf(decode_text(encoding, bytes.as_slice()));
                chunks.push(leaf);
                proof {
                    assert(views(chunks@) =~= views(before).push(leaf@));
                }
            },
            Operand::List(inner) => {
                proof {
                    assert(decreases_to!(operands@ => operands@[i as int]));
                    assert(decreases_to!(operands@[i as int] => inner));
                    assert(decreases_to!(inner => inner@));
                }
                let group = objects_to_chunk(encoding, inner.as_slice());
                chunks.push(group);
                proof {
                    assert(views(chunks@) =~= views(before).push(group@));
                }
            },
            _ => {},
        }
        i += 1;
    }
    proof {
        assert(operand_views(operands@).take(operands@.len() as int) =~= operand_views(operands@));
    }
    Chunk::group(chunks)
}

/// The encoding that a font-select operation selects.
pub fn select_font<'a>(operation: &Operation, encodings: &'a FontTable) -> (r: Result<
    Option<&'a str>,
    ExtractError,
>)
    ensures
        match selected(operation@, encodings@) {
            Ok(encoding) => r is Ok && optional_text(r.unwrap()) == encoding,
            Err(e) => r == Err::<Option<&str>, ExtractError>(e),
        },
{
    if operation.operands.len() == 0 {
        return Err(ExtractError::StructuralMismatch(Mismatch::MissingFontOperand));
    }
    match &operation.operands[0] {
        Operand::Name(name) => Ok(encodings.get(name.as_slice())),
        _ => Err(ExtractError::StructuralMismatch(Mismatch::FontOperandNotName)),
    }
}

/// The group that a block draws.
pub fn block_to_chunk(operations: &[Operation], encodings: &FontTable) -> (r: Result<
    Chunk,
    ExtractError,
>)
    ensures
        chunk_view(r) == block_chunk(operation_views(operations@), encodings@),
{
    let mut current_encoding: Option<&str> = None;
    let mut chunks: Vec<Chunk> = Vec::new();
    let mut i: usize = 0;
    proof {
        assert(views(chunks@) =~= seq![]);
        assert(operation_views(operations@).take(0).len() == 0);
    }
    while i < operations.len()
        invariant
            i <= operations.len(),
            scanned(operation_views(operations@).take(i as int), encodings@) == Ok::<
                (Option<Seq<char>>, Seq<ChunkView>),
                ExtractError,
            >((optional_text(current_encoding), views(chunks@))),
        decreases operations.len() - i,
    {
        proof {
            let upto = operation_views(operations@).take(i + 1);
            assert(upto.drop_last() =~= operation_views(operations@).take(i as int));
            assert(upto.last() == operations@[i as int]@);
        }
        let ghost before = chunks@;
        let operation = &operations[i];
        if text_eq(operation.operator.as_str(), "Tf") {
            match select_font(operation, encodings) {
                Ok(encoding) => {
                    current_encoding = encoding;
                },
                Err(e) => {
                    proof {
                        lemma_scanned_fails(operation_views(operations@), encodings@, i + 1);
                    }
                    return Err(e);
                },
            }
        } else if text_eq(operation.operator.as_str(), "Tj") || text_eq(
            operation.operator.as_str(),
            "TJ",
        ) {
            let group = objects_to_chunk(current_encoding, operation.operands.as_slice());
            chunks.push(group);
            proof {
                assert(views(chunks@) =~= views(before).push(group@));
            }
        }
        i += 1;
    }
    proof {
        assert(operation_views(operations@).take(operations@.len() as int) =~= operation_views(
            operations@,
        ));
    }
    Ok(Chunk::group(chunks))
}

/// A failure among the first `upto` operations is the failure of the block.
pub proof fn lemma_scanned_fails(
    operations: Seq<OperationView>,
    fonts: Map<Seq<u8>, Seq<char>>,
    upto: int,
)
    requires
        0 <= upto <= operations.len(),
        scanned(operations.take(upto), fonts) is Err,
    ensures
        scanned(operations, fonts) == scanned(operations.take(upto), fonts),
    decreases operations.len() - upto,
{
    if upto < operations.len() {
        assert(operations.take(upto + 1).drop_last() =~= operations.take(upto));
        lemma_scanned_fails(operations, fonts, upto + 1);
    } else {
        assert(operations.take(upto) =~= operations);
    }
}

/// The blocks of a page.
pub fn group_text_blocks(operations: &[Operation]) -> (r: Vec<&[Operation]>)
    ensures
        block_views(r@) == blocks(operation_views(operations@)),
{
    let mut out: Vec<&[Operation]> = Vec::new();
    let mut start: usize = 0;
    let mut i: usize = 0;
    proof {
        assert(operation_views(operations@).subrange(0, 0) =~= Seq::<OperationView>::empty());
        assert(operation_views(operations@).take(0) =~= Seq::<OperationView>::empty());
        assert(block_views(out@).push(Seq::<OperationView>::empty()) =~= seq![
            Seq::<OperationView>::empty(),
        ]);
    }
    while i < operations.len()
        invariant
            start <= i <= operations.len(),
            blocks(operation_views(operations@).take(i as int)) == block_views(out@).push(
                operation_views(operations@).subrange(start as int, i as int),
            ),
        decreases operations.len() - i,
    {
        proof {
            let upto = operation_views(operations@).take(i + 1);
            assert(upto.drop_last() =~= operation_views(operations@).take(i as int));
            assert(upto.last() == operations@[i as int]@);
        }
        let ghost before = out@;
        if text_eq(operations[i].operator.as_str(), "ET") {
            let block = slice_subrange(operations, start, i);
            let ghost begun = start;
            out.push(block);
            start = i + 1;
            proof {
                assert(operation_views(block@) =~= operation_views(operations@).subrange(
                    begun as int,
                    i as int,
                ));
                assert(block_views(out@) =~= block_views(before).push(operation_views(block@)));
                assert(operation_views(operations@).subrange(i + 1, i + 1) =~= Seq::<
                    OperationView,
                >::empty());
            }
        } else {
            proof {
                let open = operation_views(operations@).subrange(start as int, i as int);
                assert(open.push(operations@[i as int]@) =~= operation_views(operations@).subrange(
                    start as int,
                    i + 1,
                ));
                let all = block_views(out@).push(open);
                assert(all.update(all.len() - 1, all.last().push(operations@[i as int]@))
                    =~= block_views(out@).push(
                    operation_views(operations@).subrange(start as int, i + 1),
                ));
            }
        }
        i += 1;
    }
    let block = slice_subrange(operations, start, operations.len());
    let ghost before = out@;
    out.push(block);
    proof {
        assert(operation_views(operations@).take(operations@.len() as int) =~= operation_views(
            operations@,
        ));
        assert(operation_views(block@) =~= operation_views(operations@).subrange(
            start as int,
            operations@.len() as int,
        ));
        assert(block_views(out@) =~= block_views(before).push(operation_views(block@)));
    }
    out
}

/// A failure among the first `upto` blocks is the failure of the page.
pub proof fn lemma_block_chunks_fails(
    blocks: Seq<Seq<OperationView>>,
    fonts: Map<Seq<u8>, Seq<char>>,
    upto: int,
)
    requires
        0 <= upto <= blocks.len(),
        block_chunks(blocks.take(upto), fonts) is Err,
    ensures
        block_chunks(blocks, fonts) == block_chunks(blocks.take(upto), fonts),
    decreases blocks.len() - upto,
{
    if upto < blocks.len() {
        assert(blocks.take(upto + 1).drop_last() =~= blocks.take(upto));
        lemma_block_chunks_fails(blocks, fonts, upto + 1);
    } else {
        assert(blocks.take(upto) =~= blocks);
    }
}

/// A failure among the first `upto` pages is the failure of the document.
pub proof fn lemma_pages_chunks_fails(pages: Seq<PageView>, upto: int)
    requires
        0 <= upto <= pages.len(),
        pages_chunks(pages.take(upto)) is Err,
    ensures
        pages_chunks(pages) == pages_chunks(pages.take(upto)),
    decreases pages.len() - upto,
{
    if upto < pages.len() {
        assert(pages.take(upto + 1).drop_last() =~= pages.take(upto));
        lemma_pages_chunks_fails(pages, upto + 1);
    } else {
        assert(pages.take(upto) =~= pages);
    }
}

/// The chunks of a page: one group for each of its blocks.
pub fn page_to_chunks(page: &Page) -> (r: Result<Vec<Chunk>, ExtractError>)
    ensures
        chunks_view(r) == page_chunks(page@),
{
    let parts = group_text_blocks(page.operations.as_slice());
    let mut out: Vec<Chunk> = Vec::new();
    let mut i: usize = 0;
    proof {
        assert(views(out@) =~= seq![]);
        assert(block_views(parts@).take(0).len() == 0);
    }
    while i < parts.len()
        invariant
            i <= parts.len(),
            block_views(parts@) == blocks(page@.operations),
            block_chunks(block_views(parts@).take(i as int), page.fonts@) == Ok::<
                Seq<ChunkView>,
                ExtractError,
            >(views(out@)),
        decreases parts.len() - i,
    {
        proof {
            let upto = block_views(parts@).take(i + 1);
            assert(upto.drop_last() =~= block_views(parts@).take(i as int));
            assert(upto.last() == operation_views(parts@[i as int]@));
        }
        let ghost before = out@;
        match block_to_chunk(parts[i], &page.fonts) {
            Ok(chunk) => {
                out.push(chunk);
                proof {
                    assert(views(out@) =~= views(before).push(chunk@));
                }
            },
            Err(e) => {
                proof {
                    lemma_block_chunks_fails(block_views(parts@), page.fonts@, i + 1);
                }
                return Err(e);
            },
        }
        i += 1;
    }
    proof {
        assert(block_views(parts@).take(parts@.len() as int) =~= block_views(parts@));
    }
    Ok(out)
}

/// The chunks of each page of a document, in page order.
pub fn extract_page_chunks(pages: &[Page]) -> (r: Result<Vec<Vec<Chunk>>, ExtractError>)
    ensures
        page_chunks_view(r) == pages_chunks(page_list_views(pages@)),
{
    let mut out: Vec<Vec<Chunk>> = Vec::new();
    let mut i: usize = 0;
    proof {
        assert(page_views(out@) =~= seq![]);
        assert(page_list_views(pages@).take(0).len() == 0);
    }
    while i < pages.len()
        invariant
            i <= pages.len(),
            pages_chunks(page_list_views(pages@).take(i as int)) == Ok::<
                Seq<Seq<ChunkView>>,
                ExtractError,
            >(page_views(out@)),
        decreases pages.len() - i,
    {
        proof {
            let upto = page_list_views(pages@).take(i + 1);
            assert(upto.drop_last() =~= page_list_views(pages@).take(i as int));
            assert(upto.last() == pages@[i as int]@);
        }
        let ghost before = out@;
        match page_to_chunks(&pages[i]) {
            Ok(chunks) => {
                out.push(chunks);
                proof {
                    assert(page_views(out@) =~= page_views(before).push(views(chunks@)));
                }
            },
            Err(e) => {
                proof {
                    lemma_pages_chunks_fails(page_list_views(pages@), i + 1);
                }
                return Err(e);
            },
        }
        i += 1;
    }
    proof {
        assert(page_list_views(pages@).take(pages@.len() as int) =~= page_list_views(pages@));
    }
    Ok(out)
}

} // verus!
