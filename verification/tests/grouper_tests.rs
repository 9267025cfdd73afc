use transcript::chunk::Chunk;
use transcript::error::{ExtractError, Mismatch};
use transcript::grouper::{
    block_to_chunk, bytes_eq, extract_page_chunks, group_text_blocks, objects_to_chunk,
    page_to_chunks, select_font, FontTable, Operand, Operation, Page,
};

fn text_leaf(text: &str) -> Chunk {
    Chunk::String(text.to_string())
}

fn op(operator: &str, operands: Vec<Operand>) -> Operation {
    Operation { operator: operator.to_string(), operands }
}

fn show(text: &str) -> Operation {
    op("Tj", vec![Operand::Text(text.as_bytes().to_vec())])
}

fn font(name: &str) -> Operation {
    op("Tf", vec![Operand::Name(name.as_bytes().to_vec()), Operand::Other])
}

fn fonts() -> FontTable {
    let mut table = FontTable::new();
    table.insert(b"F1".to_vec(), "WinAnsiEncoding".to_string());
    table.insert(b"F2".to_vec(), "MacRomanEncoding".to_string());
    table
}

#[test]
fn font_table_finds_what_was_put_in() {
    let table = fonts();
    assert_eq!(table.get(b"F1"), Some("WinAnsiEncoding"));
    assert_eq!(table.get(b"F2"), Some("MacRomanEncoding"));
    assert_eq!(table.get(b"F3"), None);
    assert_eq!(table.get(b"F"), None);
    assert_eq!(FontTable::new().get(b"F1"), None);
}

#[test]
fn font_table_insert_replaces() {
    let mut table = fonts();
    table.insert(b"F1".to_vec(), "StandardEncoding".to_string());
    assert_eq!(table.get(b"F1"), Some("StandardEncoding"));
    assert_eq!(table.get(b"F2"), Some("MacRomanEncoding"));
}

#[test]
fn bytes_eq_compares_bytes() {
    assert!(bytes_eq(b"F1", b"F1"));
    assert!(!bytes_eq(b"F1", b"F2"));
    assert!(!bytes_eq(b"F1", b"F10"));
    assert!(bytes_eq(b"", b""));
}

#[test]
fn strings_decode_under_the_given_encoding() {
    // 0x93 is a left double quotation mark in the Windows encoding.
    let operands = vec![Operand::Text(vec![0x48, 0x69, 0x93])];
    assert_eq!(
        objects_to_chunk(Some("WinAnsiEncoding"), &operands),
        Chunk::Chunks(vec![text_leaf("Hi\u{201c}")])
    );
    // 0x8e is e acute in the Mac encoding.
    let operands = vec![Operand::Text(vec![0x8e])];
    assert_eq!(
        objects_to_chunk(Some("MacRomanEncoding"), &operands),
        Chunk::Chunks(vec![text_leaf("\u{e9}")])
    );
}

#[test]
fn strings_decode_under_the_standard_encoding_by_default() {
    // 0x27 is a right single quotation mark in the standard encoding.
    let operands = vec![Operand::Text(vec![0x41, 0x27])];
    assert_eq!(
        objects_to_chunk(None, &operands),
        Chunk::Chunks(vec![text_leaf("A\u{2019}")])
    );
    assert_eq!(
        objects_to_chunk(Some("StandardEncoding"), &operands),
        Chunk::Chunks(vec![text_leaf("A\u{2019}")])
    );
}

#[test]
fn nested_lists_become_groups_and_others_vanish() {
    let operands = vec![
        Operand::Text(b"CMPT".to_vec()),
        Operand::Other,
        Operand::List(vec![
            Operand::Text(b"120".to_vec()),
            Operand::Name(b"F1".to_vec()),
            Operand::List(vec![]),
        ]),
        Operand::Name(b"x".to_vec()),
    ];
    assert_eq!(
        objects_to_chunk(Some("WinAnsiEncoding"), &operands),
        Chunk::Chunks(vec![
            text_leaf("CMPT"),
            Chunk::Chunks(vec![text_leaf("120"), Chunk::Chunks(vec![])]),
        ])
    );
    assert_eq!(objects_to_chunk(None, &[]), Chunk::Chunks(vec![]));
}

#[test]
fn select_font_reads_the_first_operand() {
    let table = fonts();
    assert_eq!(select_font(&font("F2"), &table), Ok(Some("MacRomanEncoding")));
    assert_eq!(select_font(&font("F9"), &table), Ok(None));
    assert_eq!(
        select_font(&op("Tf", vec![]), &table),
        Err(ExtractError::StructuralMismatch(Mismatch::MissingFontOperand))
    );
    assert_eq!(
        select_font(&op("Tf", vec![Operand::Other, Operand::Name(b"F1".to_vec())]), &table),
        Err(ExtractError::StructuralMismatch(Mismatch::FontOperandNotName))
    );
}

#[test]
fn block_tracks_the_encoding_in_force() {
    let table = fonts();
    let operations = vec![
        op("Tj", vec![Operand::Text(vec![0x27])]),
        font("F1"),
        op("Td", vec![Operand::Other, Operand::Other]),
        op("Tj", vec![Operand::Text(vec![0x27])]),
        font("F2"),
        op("TJ", vec![Operand::List(vec![Operand::Text(vec![0x8e]), Operand::Other])]),
        font("F9"),
        op("Tj", vec![Operand::Text(vec![0x27])]),
    ];
    assert_eq!(
        block_to_chunk(&operations, &table),
        Ok(Chunk::Chunks(vec![
            Chunk::Chunks(vec![text_leaf("\u{2019}")]),
            Chunk::Chunks(vec![text_leaf("'")]),
            Chunk::Chunks(vec![Chunk::Chunks(vec![text_leaf("\u{e9}")])]),
            Chunk::Chunks(vec![text_leaf("\u{2019}")]),
        ]))
    );
}

#[test]
fn block_without_show_operators_is_an_empty_group() {
    let table = fonts();
    assert_eq!(block_to_chunk(&[], &table), Ok(Chunk::Chunks(vec![])));
    assert_eq!(
        block_to_chunk(&[op("BT", vec![]), font("F1")], &table),
        Ok(Chunk::Chunks(vec![]))
    );
}

#[test]
fn block_fails_on_a_font_select_without_a_name() {
    let table = fonts();
    assert_eq!(
        block_to_chunk(&[show("a"), op("Tf", vec![])], &table),
        Err(ExtractError::StructuralMismatch(Mismatch::MissingFontOperand))
    );
    assert_eq!(
        block_to_chunk(&[op("Tf", vec![Operand::Text(b"F1".to_vec())]), op("Tf", vec![])], &table),
        Err(ExtractError::StructuralMismatch(Mismatch::FontOperandNotName))
    );
}

#[test]
fn blocks_are_cut_at_every_block_end() {
    let operations = vec![show("a"), op("ET", vec![]), show("b"), show("c"), op("ET", vec![])];
    let blocks = group_text_blocks(&operations);
    assert_eq!(blocks.len(), 3);
    assert_eq!(blocks[0], &operations[0..1]);
    assert_eq!(blocks[1], &operations[2..4]);
    assert!(blocks[2].is_empty());
}

#[test]
fn blocks_of_a_page_without_block_ends() {
    let operations = vec![show("a"), show("b")];
    let blocks = group_text_blocks(&operations);
    assert_eq!(blocks.len(), 1);
    assert_eq!(blocks[0], &operations[..]);
    let none: Vec<Operation> = vec![];
    let blocks = group_text_blocks(&none);
    assert_eq!(blocks.len(), 1);
    assert!(blocks[0].is_empty());
    let ends = vec![op("ET", vec![]), op("ET", vec![])];
    let blocks = group_text_blocks(&ends);
    assert_eq!(blocks.len(), 3);
    assert!(blocks.iter().all(|b| b.is_empty()));
}

#[test]
fn page_yields_one_group_per_block() {
    let page = Page {
        fonts: fonts(),
        operations: vec![
            op("BT", vec![]),
            font("F1"),
            show("Plan"),
            op("ET", vec![]),
            op("BT", vec![]),
            show("x"),
            show("y"),
            op("ET", vec![]),
        ],
    };
    assert_eq!(
        page_to_chunks(&page),
        Ok(vec![
            Chunk::Chunks(vec![Chunk::Chunks(vec![text_leaf("Plan")])]),
            Chunk::Chunks(vec![
                Chunk::Chunks(vec![text_leaf("x")]),
                Chunk::Chunks(vec![text_leaf("y")]),
            ]),
            Chunk::Chunks(vec![]),
        ])
    );
}

#[test]
fn encoding_does_not_carry_into_the_next_block() {
    let page = Page {
        fonts: fonts(),
        operations: vec![
            font("F1"),
            op("Tj", vec![Operand::Text(vec![0x27])]),
            op("ET", vec![]),
            op("Tj", vec![Operand::Text(vec![0x27])]),
        ],
    };
    assert_eq!(
        page_to_chunks(&page),
        Ok(vec![
            Chunk::Chunks(vec![Chunk::Chunks(vec![text_leaf("'")])]),
            Chunk::Chunks(vec![Chunk::Chunks(vec![text_leaf("\u{2019}")])]),
        ])
    );
}

#[test]
fn pages_are_extracted_in_order() {
    let first = Page { fonts: fonts(), operations: vec![show("one")] };
    let second = Page { fonts: FontTable::new(), operations: vec![show("two"), op("ET", vec![])] };
    assert_eq!(
        extract_page_chunks(&[first, second]),
        Ok(vec![
            vec![Chunk::Chunks(vec![Chunk::Chunks(vec![text_leaf("one")])])],
            vec![
                Chunk::Chunks(vec![Chunk::Chunks(vec![text_leaf("two")])]),
                Chunk::Chunks(vec![]),
            ],
        ])
    );
    assert_eq!(extract_page_chunks(&[]), Ok(vec![]));
}

#[test]
fn first_failing_page_decides() {
    let good = Page { fonts: fonts(), operations: vec![show("one")] };
    let no_name = Page {
        fonts: fonts(),
        operations: vec![op("Tf", vec![Operand::Other])],
    };
    let no_operand = Page { fonts: fonts(), operations: vec![op("Tf", vec![])] };
    assert_eq!(
        extract_page_chunks(&[good, no_name, no_operand]),
        Err(ExtractError::StructuralMismatch(Mismatch::FontOperandNotName))
    );
}

#[test]
fn operands_and_operations_clone() {
    let operand = Operand::List(vec![
        Operand::Text(b"a".to_vec()),
        Operand::List(vec![Operand::Name(b"F1".to_vec()), Operand::Other]),
    ]);
    assert_eq!(operand.clone(), operand);
    let operation = op("TJ", vec![operand]);
    assert_eq!(operation.clone(), operation);
}

#[test]
fn font_table_clone_keeps_every_font() {
    let table = fonts();
    let copy = table.clone();
    assert_eq!(copy.get(b"F1"), Some("WinAnsiEncoding"));
    assert_eq!(copy.get(b"F2"), Some("MacRomanEncoding"));
    assert_eq!(copy.get(b"F3"), None);
    let page = Page { fonts: table, operations: vec![show("a")] };
    assert_eq!(page_to_chunks(&page.clone()), page_to_chunks(&page));
}
