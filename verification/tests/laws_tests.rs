use codex_cost_meter::cli::parse_runtime;
use codex_cost_meter::jsonl::{JsonlEvent, JsonlReader};
use codex_cost_meter::output::{human_number, safe_text, sanitize};
use codex_cost_meter::platform::{runtime_argument, xml_text};
use codex_cost_meter::progress::Progress;

#[test]
fn every_character_is_classified_as_std_classifies_it() {
    for u in 0u32..=0x10FFFF {
        let Some(c) = char::from_u32(u) else { continue };
        let separates = c.is_whitespace() || c.is_control();
        let expected = if separates { "a b".to_string() } else { format!("a{c}b") };
        assert_eq!(safe_text(&format!("a{c}b")), expected, "U+{u:04X}");
    }
}

#[test]
fn sanitizing_twice_changes_nothing() {
    for text in ["unknown\u{1b}[31m\r\nforged", "  a \t b  ", "", "\u{85}x\u{2028}y", "plain"] {
        let once = sanitize(text.to_string());
        assert_eq!(sanitize(once.clone()), once);
    }
    assert_eq!(sanitize("unknown\u{1b}[31m\r\nforged".to_string()), "unknown [31m forged");
}

#[test]
fn grouped_counts_without_commas_are_plain_decimals() {
    for n in [0u64, 999, 1_000, 15_133_186_105, u64::MAX] {
        assert_eq!(human_number(n).replace(',', ""), n.to_string());
    }
    assert_eq!(human_number(15_133_186_105), "15,133,186,105");
}

#[test]
fn runtime_arguments_read_back_as_their_seconds() {
    for seconds in [1u64, 59, 60, 90, 14_400, u64::MAX] {
        assert_eq!(parse_runtime(&runtime_argument(seconds)), Ok(seconds));
    }
}

#[test]
fn escaped_xml_reads_back_as_the_text() {
    for text in ["/tmp/codex&<meter>", "&lt;", "", "a>b<c&d"] {
        let escaped = xml_text(text);
        assert!(!escaped.contains('<') && !escaped.contains('>'));
        assert_eq!(escaped.replace("&gt;", ">").replace("&lt;", "<").replace("&amp;", "&"), text);
    }
    assert_eq!(xml_text("&lt;"), "&amp;lt;");
}

fn read_in_pieces(input: &[u8], piece: usize) -> Vec<Option<Vec<u8>>> {
    let mut reader = JsonlReader::new();
    let mut events = Vec::new();
    for chunk in input.chunks(piece) {
        let mut rest = chunk;
        while !rest.is_empty() {
            let (used, event) = reader.chunk(rest);
            rest = &rest[used..];
            match event {
                JsonlEvent::Record(line) => events.push(Some(line)),
                JsonlEvent::Oversized => events.push(None),
                JsonlEvent::Nothing => {}
            }
        }
    }
    match reader.end() {
        JsonlEvent::Record(line) => events.push(Some(line)),
        JsonlEvent::Oversized => events.push(None),
        JsonlEvent::Nothing => {}
    }
    events
}

#[test]
fn reading_a_stream_gives_its_lines_however_it_is_cut() {
    let input = b"{\"a\":1}\n\n{\"b\":2}\nlast";
    let whole = read_in_pieces(input, input.len());
    assert_eq!(
        whole,
        vec![Some(b"{\"a\":1}".to_vec()), Some(Vec::new()), Some(b"{\"b\":2}".to_vec()), Some(b"last".to_vec())]
    );
    for piece in 1..input.len() {
        assert_eq!(read_in_pieces(input, piece), whole);
    }
}

#[test]
fn a_disabled_display_writes_nothing() {
    let mut p = Progress::new(false, false);
    let mut written = String::new();
    written.push_str(&p.start_indexing(0));
    for now in 1..5 {
        written.push_str(&p.indexed_file(now * 1_000_000_000));
    }
    written.push_str(&p.start_analysis(3, 10));
    for now in 0..3 {
        written.push_str(&p.analyzed_rollout(now));
    }
    written.push_str(&p.finish(99));
    written.push_str(&p.close());
    assert!(written.is_empty());
}

#[test]
fn tree_rollouts_go_to_the_root_or_the_descendants() {
    use_tree_step();
}

fn use_tree_step() {
    assert_eq!(codex_cost_meter::tree::tree_step("root", "root", true), codex_cost_meter::tree::TreeStep::Root);
    assert_eq!(codex_cost_meter::tree::tree_step("child", "root", true), codex_cost_meter::tree::TreeStep::Child);
    assert_eq!(
        codex_cost_meter::tree::tree_step("root", "root", false),
        codex_cost_meter::tree::TreeStep::SelectedUnreadable
    );
    assert_eq!(
        codex_cost_meter::tree::tree_step("child", "root", false),
        codex_cost_meter::tree::TreeStep::ChildUnreadable
    );
    assert_eq!(codex_cost_meter::tree::unreadable_warning("child"), "descendant rollout child could not be read");
}

#[test]
fn every_ampersand_in_escaped_xml_starts_an_entity() {
    for text in ["/tmp/codex&<meter>", "&&", "a&lt;b", "plain"] {
        let escaped = xml_text(text);
        for (i, c) in escaped.char_indices() {
            if c == '&' {
                let rest = &escaped[i..];
                assert!(rest.starts_with("&amp;") || rest.starts_with("&lt;") || rest.starts_with("&gt;"));
            }
        }
    }
}

#[test]
fn ascii_names_normalise_to_lowercase_letters_and_digits() {
    assert_eq!(codex_cost_meter::project::normalized("Codex-Cost Meter 2"), "codexcostmeter2");
}
