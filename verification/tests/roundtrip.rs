use dlse_esd::dlse_esd::DlseEsd;
use dlse_esd::types::compile::condition_bytes::{compile_condition, to_postfix, tokenize};
use dlse_esd::types::structs::{Buffer, Condition, Evaluator, Event, Header, Project, RefValue, Reference, SharedString, State, Transition};
use std::sync::Arc;
use dlse_esd::types::decompile::read::{assoc_insert_exec, read_value};
use dlse_esd::utils::binary_reader::{assert_values, values_contain, BinaryReader};
use dlse_esd::utils::strings::parse_int;
use dlse_esd::utils::text::{i64_to_string, u64_to_string};
use dlse_esd::utils::binary_writer::BinaryWriter;
use dlse_esd::utils::important_comp_data::ImportantCompData;
use dlse_esd::utils::important_data::ImportantData;
use dlse_esd::utils::text_reader::TextReader;
use dlse_esd::utils::text_writer::TextWriter;

const FUNCS: &str = "{\"15\": \"GetEventFlag\", \"0\": \"GetDistanceToPlayer\", \"7\": \"Seven\"}";
const EVENTS: &str = "{\"0\": \"DebugEvent\", \"1\": \"SetEventFlag\"}";

fn header_with(strings: &[&str]) -> Header {
    Header {
        magic: "DLSE".to_string(),
        unk04: 2,
        version: 3,
        unk08: Some(26140),
        transition_count: Some(0),
        highest_ref_id_plus_one: Some(1),
        string_count: strings.len() as u16,
        strings: strings
            .iter()
            .map(|s| SharedString { length: s.len() as u32, str: s.to_string() })
            .collect(),
    }
}

fn data() -> ImportantData {
    ImportantData::default(&header_with(&["EzStateProject", "DLVector", "buffer"]), FUNCS, EVENTS).unwrap()
}

fn lines(tw: &TextWriter) -> Vec<String> {
    tw.lines.clone()
}

#[test]
fn reader_reads_big_endian() {
    let mut br = BinaryReader::new(vec![0x12, 0x34, 0x56, 0x78, 0x9A, 0xBC, 0xDE, 0xF0, 0x01, 0x02, 0x03, 0x04, 0x05, 0x06, 0x07]);
    assert_eq!(br.read_uint8(), 0x12);
    assert_eq!(br.read_uint16(), 0x3456);
    assert_eq!(br.read_uint32(), 0x789ABCDE);
    assert_eq!(br.read_uint64(), 0xF001020304050607);
    assert_eq!(br.current_position, 15);
}

#[test]
fn reader_reads_strings() {
    let mut br = BinaryReader::new("héllo".as_bytes().to_vec());
    assert_eq!(br.read_string(6), Some("héllo".to_string()));
    let mut bad = BinaryReader::new(vec![0xFF, 0xFE]);
    assert_eq!(bad.read_string(2), None);
}

#[test]
fn writer_writes_big_endian() {
    let mut bw = BinaryWriter::new("out.esd");
    bw.write_uint8(1);
    bw.write_uint16(0x0203);
    bw.write_uint32(0x04050607);
    bw.write_uint64(0x08090A0B0C0D0E0F);
    bw.write_string("ab".to_string());
    assert_eq!(bw.bytes, vec![1, 2, 3, 4, 5, 6, 7, 8, 9, 10, 11, 12, 13, 14, 15, b'a', b'b']);
    assert_eq!(bw.path, "out.esd");
}

#[test]
fn written_values_read_back() {
    let mut bw = BinaryWriter::new("x");
    bw.write_uint16(65535);
    bw.write_uint32(123456789);
    bw.write_uint64(u64::MAX - 5);
    let mut br = BinaryReader::new(bw.bytes.clone());
    assert_eq!(br.read_uint16(), 65535);
    assert_eq!(br.read_uint32(), 123456789);
    assert_eq!(br.read_uint64(), u64::MAX - 5);
}

#[test]
fn header_write_then_read() {
    let h = header_with(&["EzStateProject", "DLVector"]);
    let mut bw = BinaryWriter::new("x");
    h.write(&mut bw);
    let mut br = BinaryReader::new(bw.bytes.clone());
    let back = Header::read(&mut br).unwrap();
    assert_eq!(back.magic, "DLSE");
    assert_eq!(back.version, 3);
    assert_eq!(back.unk08, Some(26140));
    assert_eq!(back.string_count, 2);
    assert_eq!(back.strings[1].str, "DLVector");
    assert_eq!(br.current_position, bw.bytes.len());
}

#[test]
fn type_table_lookups() {
    let d = data();
    assert_eq!(d.get_type_by_name("DLVector"), Some(2));
    assert_eq!(d.get_type_by_name("buffer"), Some(3));
    assert_eq!(d.get_type_by_name("EzStateMap"), None);
    assert_eq!(d.get_type_name(1), "EzStateProject");
    assert_eq!(d.get_type_name(d.get_type_by_name("buffer").unwrap()), "buffer");
}

#[test]
fn data_ids_are_marked_once() {
    let mut d = data();
    assert!(d.should_read_data(5));
    assert!(!d.should_read_data(5));
    assert!(d.should_write_data(7));
    assert!(!d.should_write_data(7));
    assert!(d.should_write_data(8));
}

#[test]
fn bad_json_is_refused() {
    assert!(ImportantData::default(&header_with(&[]), "{", EVENTS).is_none());
    assert!(ImportantCompData::new(FUNCS, "[1, 2]").is_none());
}

#[test]
fn next_ids_count_up() {
    let mut c = ImportantCompData::new(FUNCS, EVENTS).unwrap();
    assert_eq!(c.get_next_id(), 1);
    assert_eq!(c.get_next_id(), 2);
    assert_eq!(c.highest_id, 2);
}

#[test]
fn text_reader_strips_spaces() {
    let mut tr = TextReader::new("def Map_1():\r\n    def State_0():\n");
    assert_eq!(tr.lines, vec!["defMap_1():".to_string(), "defState_0():".to_string(), "".to_string()]);
    assert_eq!(tr.read_line(), Some("defMap_1():".to_string()));
    assert_eq!(tr.line_idx, 1);
    tr.read_line();
    tr.read_line();
    assert_eq!(tr.read_line(), None);
}

#[test]
fn text_writer_collects_lines() {
    let mut tw = TextWriter::new("a.esd.py");
    tw.write_line("x".to_string());
    tw.write_line("y".to_string());
    assert_eq!(tw.lines, vec!["x".to_string(), "y".to_string()]);
    assert_eq!(tw.path, "a.esd.py");
}

#[test]
fn condition_tokens_and_postfix() {
    let c = ImportantCompData::new(FUNCS, EVENTS).unwrap();
    let tokens = tokenize("if GetEventFlag(115)==1 and GetDistanceToPlayer()<2:").unwrap();
    assert_eq!(
        tokens,
        vec!["if", "GetEventFlag", "(", "115", ")", "==", "1", "and", "GetDistanceToPlayer", "(", ")", "<", "2"]
    );
    let post = to_postfix(&tokens, &c).unwrap();
    assert_eq!(post, vec!["GetEventFlag", "115", "(1)", "1", "==", "GetDistanceToPlayer", "(0)", "2", "<", "and"]);
    assert!(tokenize("a<").is_none());
}

#[test]
fn condition_compiles_to_bytecode() {
    let c = ImportantCompData::new(FUNCS, EVENTS).unwrap();
    assert_eq!(
        compile_condition("ifGetEventFlag(115)==1:", &c),
        Some(vec![79, 0x82, 115, 0, 0, 0, 0x85, 65, 0x95, 0xA1])
    );
    assert_eq!(compile_condition("ifTrue:", &c), Some(vec![65, 0xA1]));
    assert_eq!(compile_condition("ifSeven()==1:", &c), Some(vec![0x47, 0x84, 0x41, 0x95, 0xA1]));
    assert_eq!(compile_condition("ifUnknown()==1:", &c), None);
}

#[test]
fn condition_decompiles_to_infix() {
    let d = data();
    let mut tw = TextWriter::new("x");
    let buffer = Buffer { struct_type: 3, length: 10, data: vec![79, 0x82, 115, 0, 0, 0, 0x85, 65, 0x95, 0xA1] };
    assert!(Condition::decompile_condition_buffer(&buffer, &mut tw, &d).is_some());
    let always = Buffer { struct_type: 3, length: 2, data: vec![65, 0xA1] };
    assert!(Condition::decompile_condition_buffer(&always, &mut tw, &d).is_some());
    let cond = Condition {
        struct_type: 1,
        version: 1,
        evaluator: Evaluator {
            struct_type: 2,
            version: 1,
            buffer: Buffer { struct_type: 3, length: 5, data: vec![66, 67, 0x8C, 68, 0x92, 0xA1] },
        },
    };
    assert!(cond.decompile(&mut tw, &d).is_some());
    assert_eq!(
        lines(&tw),
        vec!["        if GetEventFlag(115) == 1:", "        if True:", "        if 2 + 3 >= 4:"]
    );
}

#[test]
fn bad_condition_bytecode_is_refused() {
    let d = data();
    let mut tw = TextWriter::new("x");
    let cut = Buffer { struct_type: 3, length: 3, data: vec![0x82, 1, 0xA1] };
    assert!(Condition::decompile_condition_buffer(&cut, &mut tw, &d).is_none());
    let unknown_byte = Buffer { struct_type: 3, length: 2, data: vec![65, 0x83] };
    assert!(Condition::decompile_condition_buffer(&unknown_byte, &mut tw, &d).is_none());
    let no_operands = Buffer { struct_type: 3, length: 1, data: vec![0x95] };
    assert!(Condition::decompile_condition_buffer(&no_operands, &mut tw, &d).is_none());
    let unknown_func = Buffer { struct_type: 3, length: 3, data: vec![100, 0x84, 0xA1] };
    assert!(Condition::decompile_condition_buffer(&unknown_func, &mut tw, &d).is_none());
    assert!(tw.lines.is_empty());
}

#[test]
fn event_compiles_and_decompiles() {
    let mut c = ImportantCompData::new(FUNCS, EVENTS).unwrap();
    let e = Event::compile(&"SetEventFlag(100,1)".to_string(), &mut c).unwrap();
    assert_eq!(e.event_id, 1);
    assert_eq!(e.arg_amount, 3);
    let bufs = e.arg_buffers.as_ref().unwrap();
    assert_eq!(bufs[0].data, vec![0x82, 100, 0, 0, 0, 0xA1]);
    assert_eq!(bufs[1].data, vec![65, 0xA1]);
    let s = Event::compile(&"DebugEvent(\"a\")".to_string(), &mut c).unwrap();
    assert_eq!(s.arg_buffers.as_ref().unwrap()[0].data, vec![0xA5, 0x61, 0, 0, 0, 0xA1]);
    let n = Event::compile(&"DebugEvent(-3)".to_string(), &mut c).unwrap();
    assert_eq!(n.arg_buffers.as_ref().unwrap()[0].data, vec![61, 0xA1]);
    assert!(Event::compile(&"NoSuchEvent(1)".to_string(), &mut c).is_none());
    assert!(Event::compile(&"DebugEvent(x)".to_string(), &mut c).is_none());

    let d = data();
    let mut tw = TextWriter::new("x");
    assert!(e.decompile(&mut tw, &d).is_some());
    assert!(s.decompile(&mut tw, &d).is_some());
    assert!(n.decompile(&mut tw, &d).is_some());
    assert_eq!(
        lines(&tw),
        vec!["        SetEventFlag(100, 1)", "        DebugEvent(\"a\")", "        DebugEvent(-3)"]
    );
}

const SCRIPT: &str = "def Map_1():\n    def State_0():\n        #Transitions:\n        if True:\n            State_1()\n    def State_1():\n        #EntryEvents:\n        DebugEvent(\"a\")\n";

#[test]
fn script_compiles_and_decompiles_back() {
    let bw = DlseEsd::compile("t0615.esd.py", SCRIPT, FUNCS, EVENTS).unwrap();
    assert_eq!(bw.path, "t0615.esd");
    assert_eq!(&bw.bytes[0..4], b"DLSE");
    let tw = DlseEsd::decompile("t0615.esd", bw.bytes.clone(), FUNCS, EVENTS).unwrap();
    assert_eq!(tw.path, "t0615.esd.py");
    assert_eq!(
        lines(&tw),
        vec![
            "def Map_1():",
            "    def State_0():",
            "        #Transitions:",
            "        if True:",
            "            State_1()",
            "    def State_1():",
            "        #EntryEvents:",
            "        DebugEvent(\"a\")",
        ]
    );
}

#[test]
fn compiled_file_reads_back_and_rewrites_identically() {
    let bw = DlseEsd::compile("a.esd.py", SCRIPT, FUNCS, EVENTS).unwrap();
    let mut esd = DlseEsd::read(bw.bytes.clone(), FUNCS, EVENTS).unwrap();
    assert_eq!(esd.header.version, 3);
    assert_eq!(esd.header.transition_count, Some(1));
    assert_eq!(esd.unkx00, 0x2695380AB4E4C27);
    let again = esd.write("b.esd").unwrap();
    assert_eq!(again.bytes, bw.bytes);
}

#[test]
fn truncated_file_is_refused() {
    let bw = DlseEsd::compile("a.esd.py", SCRIPT, FUNCS, EVENTS).unwrap();
    let cut = bw.bytes[..bw.bytes.len() - 3].to_vec();
    assert!(DlseEsd::read(cut.clone(), FUNCS, EVENTS).is_none());
    assert!(DlseEsd::decompile("a.esd", cut, FUNCS, EVENTS).is_none());
    assert!(DlseEsd::decompile("ab", bw.bytes.clone(), FUNCS, EVENTS).is_none());
}

#[test]
fn unknown_script_lines_are_refused() {
    assert!(DlseEsd::compile("a.esd.py", "def Map_x():\n", FUNCS, EVENTS).is_none());
    assert!(DlseEsd::compile("a.esd.py", "def Map_1():\n def State_0():\n #EntryEvents:\n Unknown(1)\n\n", FUNCS, EVENTS).is_none());
    let empty = DlseEsd::compile("a.esd.py", "", FUNCS, EVENTS).unwrap();
    let tw = DlseEsd::decompile("a.esd", empty.bytes, FUNCS, EVENTS).unwrap();
    assert!(tw.lines.is_empty());
}

#[test]
fn printed_numbers_parse_back() {
    assert_eq!(parse_int(&i64_to_string(-42), i64::MIN, i64::MAX), Some(-42));
    assert_eq!(parse_int(&u64_to_string(4294967295), 0, u32::MAX as i64), Some(4294967295));
    assert_eq!(parse_int("+7", 0, 255), Some(7));
    assert_eq!(parse_int("-7", 0, 255), None);
    assert_eq!(parse_int("256", 0, 255), None);
    assert_eq!(parse_int("12a", i64::MIN, i64::MAX), None);
    assert_eq!(parse_int("", i64::MIN, i64::MAX), None);
    assert_eq!(parse_int("-9223372036854775808", i64::MIN, i64::MAX), Some(i64::MIN));
    assert_eq!(parse_int("9223372036854775808", i64::MIN, i64::MAX), None);
}

fn event_text(call: &str) -> Vec<String> {
    let mut c = ImportantCompData::new(FUNCS, EVENTS).unwrap();
    let e = Event::compile(&call.to_string(), &mut c).unwrap();
    let d = data();
    let mut tw = TextWriter::new("x");
    e.decompile(&mut tw, &d).unwrap();
    lines(&tw)
}

#[test]
fn integer_arguments_survive_compile_and_decompile() {
    assert_eq!(event_text("SetEventFlag(-64,63)"), vec!["        SetEventFlag(-64, 63)"]);
    assert_eq!(event_text("SetEventFlag(64,2147483647)"), vec!["        SetEventFlag(64, 2147483647)"]);
    assert_eq!(event_text("DebugEvent(-65)"), vec!["        DebugEvent(-65)"]);
    assert_eq!(event_text("DebugEvent(-2147483648)"), vec!["        DebugEvent(-2147483648)"]);
    let mut c = ImportantCompData::new(FUNCS, EVENTS).unwrap();
    let e = Event::compile(&"DebugEvent(-100)".to_string(), &mut c).unwrap();
    assert_eq!(e.arg_buffers.as_ref().unwrap()[0].data, vec![0x82, 0x9C, 0xFF, 0xFF, 0xFF, 0xA1]);
    assert_eq!(e.arg_buffers.as_ref().unwrap()[0].length, 6);
}

#[test]
fn string_arguments_survive_compile_and_decompile() {
    assert_eq!(event_text("DebugEvent(\"待機\")"), vec!["        DebugEvent(\"待機\")"]);
    assert_eq!(event_text("DebugEvent(\"😀x\")"), vec!["        DebugEvent(\"😀x\")"]);
    assert_eq!(event_text("DebugEvent(\"\")"), vec!["        DebugEvent(\"\")"]);
}

#[test]
fn event_calls_survive_compile_and_decompile() {
    assert_eq!(event_text("SetEventFlag()"), vec!["        SetEventFlag()"]);
    assert_eq!(
        event_text("DebugEvent(7,\"x y\",-2)"),
        vec!["        DebugEvent(7, \"x y\", -2)"]
    );
}

#[test]
fn condition_numbers_survive_compile_and_decompile() {
    let c = ImportantCompData::new(FUNCS, EVENTS).unwrap();
    let d = data();
    let mut tw = TextWriter::new("x");
    for text in ["ifGetEventFlag(70000)==63:", "ifGetEventFlag(4294967295)!=64:"] {
        let bytes = compile_condition(text, &c).unwrap();
        let buffer = Buffer { struct_type: 3, length: bytes.len() as u32, data: bytes };
        Condition::decompile_condition_buffer(&buffer, &mut tw, &d).unwrap();
    }
    assert_eq!(
        lines(&tw),
        vec!["        if GetEventFlag(70000) == 63:", "        if GetEventFlag(4294967295) != 64:"]
    );
}

#[test]
fn comparisons_survive_compile_and_decompile() {
    let c = ImportantCompData::new(FUNCS, EVENTS).unwrap();
    let d = data();
    let mut tw = TextWriter::new("x");
    let texts = [
        "ifGetDistanceToPlayer()==2:",
        "ifGetDistanceToPlayer()==100000:",
        "ifGetDistanceToPlayer()<=2:",
        "ifGetDistanceToPlayer()>45:",
        "ifGetEventFlag(8704)!=0:",
        "ifGetEventFlag(7)<1:",
        "ifGetEventFlag(70)>=3:",
    ];
    for text in texts {
        let bytes = compile_condition(text, &c).unwrap();
        let buffer = Buffer { struct_type: 3, length: bytes.len() as u32, data: bytes };
        Condition::decompile_condition_buffer(&buffer, &mut tw, &d).unwrap();
    }
    assert_eq!(
        lines(&tw),
        vec![
            "        if GetDistanceToPlayer() == 2:",
            "        if GetDistanceToPlayer() == 100000:",
            "        if GetDistanceToPlayer() <= 2:",
            "        if GetDistanceToPlayer() > 45:",
            "        if GetEventFlag(8704) != 0:",
            "        if GetEventFlag(7) < 1:",
            "        if GetEventFlag(70) >= 3:",
        ]
    );
}

#[test]
fn paths_follow_the_extensions() {
    assert_eq!(dlse_esd::dlse_esd::compiled_file_path("dir/t0615.esd.py"), "dir/t0615.esd");
    let bw = DlseEsd::compile("m.esd.py", SCRIPT, FUNCS, EVENTS).unwrap();
    let tw = DlseEsd::decompile(&bw.path, bw.bytes.clone(), FUNCS, EVENTS).unwrap();
    assert_eq!(tw.path, "m.esd.py");
    assert_eq!(dlse_esd::dlse_esd::compiled_file_path(&tw.path), bw.path);
}

#[test]
fn buffer_write_then_read() {
    let mut d = data();
    let b = Buffer { struct_type: 3, length: 3, data: vec![7, 8, 9] };
    let mut bw = BinaryWriter::new("x");
    bw.write_uint8(0xEE);
    b.write(&mut bw, &mut d, "buffer").unwrap();
    assert_eq!(bw.bytes, vec![0xEE, 0, 3, 0, 0, 0, 3, 7, 8, 9]);
    let mut br = BinaryReader::new(bw.bytes.clone());
    br.read_uint8();
    let back = Buffer::read(&mut br, &mut d).unwrap();
    assert_eq!(back.struct_type, 3);
    assert_eq!(back.data, vec![7, 8, 9]);
    assert!(b.write(&mut bw, &mut d, "nothing").is_none());
}

#[test]
fn values_are_checked_against_lists() {
    assert!(values_contain(&vec![1, 2], 2));
    assert!(!values_contain(&vec![1, 2], 3));
    assert_values(&2, vec![1, 2]);
}

fn object_data() -> ImportantData {
    let table = [
        "EzStateProject",
        "buffer",
        "EzStateEvaluator",
        "EzState::detail::EzStateCondition",
        "EzStateExternalEvent",
    ];
    ImportantData::default(&header_with(&table), FUNCS, EVENTS).unwrap()
}

#[test]
fn event_write_then_read() {
    let mut d = object_data();
    let e = Event {
        struct_type: 5,
        version: 2,
        event_id: 42,
        arg_amount: 3,
        arg_evaluators: None,
        arg_buffers: Some(vec![
            Buffer { struct_type: 2, length: 2, data: vec![70, 0xA1] },
            Buffer { struct_type: 2, length: 1, data: vec![0xA1] },
        ]),
    };
    let mut bw = BinaryWriter::new("x");
    bw.write_uint8(0xEE);
    e.write(&mut bw, &mut d).unwrap();
    assert_eq!(
        bw.bytes,
        vec![0xEE, 0, 5, 0, 0, 0, 2, 0, 0, 0, 42, 0, 0, 0, 3, 0, 2, 0, 0, 0, 2, 70, 0xA1, 0, 2, 0, 0, 0, 1, 0xA1]
    );
    let mut br = BinaryReader::new(bw.bytes.clone());
    br.read_uint8();
    let back = Event::read(&mut br, &mut d).unwrap();
    assert_eq!(back.struct_type, 5);
    assert_eq!(back.version, 2);
    assert_eq!(back.event_id, 42);
    assert_eq!(back.arg_amount, 3);
    let bufs = back.arg_buffers.unwrap();
    assert_eq!(bufs.len(), 2);
    assert_eq!(bufs[0].data, vec![70, 0xA1]);
    assert_eq!(bufs[1].data, vec![0xA1]);
}

#[test]
fn condition_write_then_read() {
    let mut d = object_data();
    let c = Condition {
        struct_type: 4,
        version: 1,
        evaluator: Evaluator {
            struct_type: 3,
            version: 1,
            buffer: Buffer { struct_type: 2, length: 2, data: vec![0x41, 0xA1] },
        },
    };
    let mut bw = BinaryWriter::new("x");
    c.write(&mut bw, &mut d).unwrap();
    assert_eq!(bw.bytes, vec![0, 4, 0, 0, 0, 1, 0, 3, 0, 0, 0, 1, 0, 2, 0, 0, 0, 2, 0x41, 0xA1]);
    let mut br = BinaryReader::new(bw.bytes.clone());
    let back = Condition::read(&mut br, &mut d).unwrap();
    assert_eq!(back.struct_type, 4);
    assert_eq!(back.version, 1);
    assert_eq!(back.evaluator.struct_type, 3);
    assert_eq!(back.evaluator.buffer.data, vec![0x41, 0xA1]);
}

#[test]
fn small_bytes_decompile_as_negative_numbers() {
    let d = data();
    let mut tw = TextWriter::new("x");
    let minus_one = Buffer { struct_type: 3, length: 2, data: vec![0x3F, 0xA1] };
    assert!(Condition::decompile_condition_buffer(&minus_one, &mut tw, &d).is_some());
    assert_eq!(lines(&tw), vec!["        if -1:"]);
}

#[test]
fn last_line_of_a_state_is_compiled() {
    let mut c = ImportantCompData::new(FUNCS, "{\"1\": \"Foo\"}").unwrap();
    let mut tr = TextReader::new("#EntryEvents:\nFoo(1)");
    let st = State::compile(&mut tr, 3, &mut c).unwrap();
    assert_eq!(st.state_index, 3);
    assert_eq!(st.entry_events.references.len(), 1);
    assert_eq!(st.entry_events.references[0].id, 1);
    assert!(st.entry_events.references[0].value.is_some());
    assert_eq!(tr.line_idx, 2);
    assert_eq!(c.highest_id, 1);
}

#[test]
fn function_seven_compiles() {
    let mut c = ImportantCompData::new(FUNCS, EVENTS).unwrap();
    let mut tr = TextReader::new("State_1()");
    let (t, target) = Transition::compile(&"ifSeven()==1:".to_string(), &mut tr, &mut c).unwrap();
    assert_eq!(target, 1);
    assert_eq!(t.cond_buffer.unwrap().data, vec![0x47, 0x84, 0x41, 0x95, 0xA1]);
}

#[test]
fn parenthesised_groups_convert_to_postfix() {
    let c = ImportantCompData::new(FUNCS, EVENTS).unwrap();
    let tokens: Vec<String> = ["(", "1", "==", "2", "or", "3", "==", "4", ")", "and", "(", "5", "==", "6", "or", "7", "==", "8", ")"]
        .iter()
        .map(|t| t.to_string())
        .collect();
    let post = to_postfix(&tokens, &c).unwrap();
    assert_eq!(
        post,
        vec!["1", "2", "==", "3", "4", "==", "or", "5", "6", "==", "7", "8", "==", "or", "and"]
    );
    let call: Vec<String> = ["GetEventFlag", "(", "(", "1", "+", "2", ")", ")", "==", "3"]
        .iter()
        .map(|t| t.to_string())
        .collect();
    assert_eq!(to_postfix(&call, &c).unwrap(), vec!["GetEventFlag", "1", "2", "+", "(1)", "3", "=="]);
}

#[test]
fn right_hand_sums_keep_their_parentheses() {
    let d = data();
    let mut tw = TextWriter::new("x");
    let sum = Buffer { struct_type: 3, length: 6, data: vec![65, 66, 67, 0x8C, 0x8E, 0xA1] };
    assert!(Condition::decompile_condition_buffer(&sum, &mut tw, &d).is_some());
    let quotient = Buffer { struct_type: 3, length: 6, data: vec![65, 66, 67, 0x8F, 0x90, 0xA1] };
    assert!(Condition::decompile_condition_buffer(&quotient, &mut tw, &d).is_some());
    assert_eq!(lines(&tw), vec!["        if 1 - (2 + 3):", "        if 1 / (2 * 3):"]);
}

#[test]
fn chains_survive_compile_and_decompile() {
    let c = ImportantCompData::new(FUNCS, EVENTS).unwrap();
    let d = data();
    let mut tw = TextWriter::new("x");
    let texts = [
        "ifGetDistanceToPlayer()==2andGetEventFlag(7)<1:",
        "ifGetEventFlag(8704)!=0orGetDistanceToPlayer()>45orGetEventFlag(70)>=100000:",
        "ifGetDistanceToPlayer()<=2andGetDistanceToPlayer()>1andGetEventFlag(3)==1:",
    ];
    for text in texts {
        let bytes = compile_condition(text, &c).unwrap();
        let buffer = Buffer { struct_type: 3, length: bytes.len() as u32, data: bytes };
        Condition::decompile_condition_buffer(&buffer, &mut tw, &d).unwrap();
    }
    assert_eq!(
        lines(&tw),
        vec![
            "        if GetDistanceToPlayer() == 2 and GetEventFlag(7) < 1:",
            "        if GetEventFlag(8704) != 0 or GetDistanceToPlayer() > 45 or GetEventFlag(70) >= 100000:",
            "        if GetDistanceToPlayer() <= 2 and GetDistanceToPlayer() > 1 and GetEventFlag(3) == 1:",
        ]
    );
}

#[test]
fn project_compile_reads_to_the_end() {
    let mut c = ImportantCompData::new(FUNCS, "{\"1\": \"Foo\"}").unwrap();
    let mut tr = TextReader::new("defMap_4():\ndefState_0():\n#EntryEvents:\nFoo(1)\ndefMap_5():\ndefState_0():");
    let project = Project::compile(&mut tr, &mut c).unwrap();
    assert_eq!(tr.line_idx, tr.lines.len());
    assert_eq!(project.maps.references.len(), 2);
    assert!(project.maps.references[0].id < project.maps.references[1].id);
}

#[test]
fn transition_index_list_keeps_one_entry_per_id() {
    let mut l: Vec<(u32, usize)> = vec![(5, 0), (7, 1)];
    assoc_insert_exec(&mut l, 5, 2);
    assert_eq!(l, vec![(5, 2), (7, 1)]);
    assoc_insert_exec(&mut l, 9, 3);
    assert_eq!(l, vec![(5, 2), (7, 1), (9, 3)]);
}

#[test]
fn condition_reference_write_then_read() {
    let mut d = object_data();
    let c = Condition {
        struct_type: 4,
        version: 1,
        evaluator: Evaluator {
            struct_type: 3,
            version: 1,
            buffer: Buffer { struct_type: 2, length: 2, data: vec![0x41, 0xA1] },
        },
    };
    let new_id = d.current_max_id + 1;
    let r = Reference { ref_type: 4, id: 77, value: Some(Arc::new(RefValue::Condition(c))) };
    let mut bw = BinaryWriter::new("x");
    r.write(&mut bw, 0, &mut d).unwrap();
    assert_eq!(d.old_new_id_dict.get(&77), Some(&new_id));
    let mut dr = object_data();
    let mut br = BinaryReader::new(bw.bytes.clone());
    let back = Reference::read(&mut br, 0, &mut dr).unwrap();
    assert_eq!(back.ref_type, 4);
    assert_eq!(back.id, new_id);
    assert_eq!(br.current_position, bw.bytes.len());
    match back.value.as_deref() {
        Some(RefValue::Condition(rc)) => {
            assert_eq!(rc.struct_type, 4);
            assert_eq!(rc.evaluator.buffer.data, vec![0x41, 0xA1]);
        }
        _ => panic!("expected a condition"),
    }
}

#[test]
fn mixed_chains_survive_compile_and_decompile() {
    let c = ImportantCompData::new(FUNCS, EVENTS).unwrap();
    let d = data();
    let mut tw = TextWriter::new("x");
    let texts = [
        "ifGetDistanceToPlayer()==2andGetEventFlag(7)<1orGetEventFlag(3)==1:",
        "ifGetEventFlag(8704)!=0orGetDistanceToPlayer()>45andGetEventFlag(70)>=100000:",
        "ifGetEventFlag(1)==1orGetEventFlag(2)==1andGetEventFlag(3)==1orGetEventFlag(4)==1:",
        "ifGetEventFlag(1)==1and(GetEventFlag(2)==1orGetEventFlag(3)==1):",
    ];
    for text in texts {
        let bytes = compile_condition(text, &c).unwrap();
        let buffer = Buffer { struct_type: 3, length: bytes.len() as u32, data: bytes };
        Condition::decompile_condition_buffer(&buffer, &mut tw, &d).unwrap();
    }
    assert_eq!(
        lines(&tw),
        vec![
            "        if GetDistanceToPlayer() == 2 and GetEventFlag(7) < 1 or GetEventFlag(3) == 1:",
            "        if GetEventFlag(8704) != 0 or GetDistanceToPlayer() > 45 and GetEventFlag(70) >= 100000:",
            "        if GetEventFlag(1) == 1 or GetEventFlag(2) == 1 and GetEventFlag(3) == 1 or GetEventFlag(4) == 1:",
            "        if GetEventFlag(1) == 1 and (GetEventFlag(2) == 1 or GetEventFlag(3) == 1):",
        ]
    );
}

#[test]
fn written_ids_are_renumbered_from_one() {
    let mut d = object_data();
    let cond = || Condition {
        struct_type: 4,
        version: 1,
        evaluator: Evaluator {
            struct_type: 3,
            version: 1,
            buffer: Buffer { struct_type: 2, length: 2, data: vec![0x41, 0xA1] },
        },
    };
    assert_eq!(d.current_max_id, 0);
    let mut bw = BinaryWriter::new("x");
    Reference { ref_type: 4, id: 50, value: Some(Arc::new(RefValue::Condition(cond()))) }
        .write(&mut bw, 0, &mut d)
        .unwrap();
    Reference { ref_type: 4, id: 30, value: Some(Arc::new(RefValue::Condition(cond()))) }
        .write(&mut bw, 0, &mut d)
        .unwrap();
    let before = bw.bytes.len();
    Reference { ref_type: 4, id: 50, value: None }.write(&mut bw, 0, &mut d).unwrap();
    assert_eq!(bw.bytes[before..].to_vec(), vec![0, 4, 0, 0, 0, 1]);
    assert_eq!(d.current_max_id, 2);
    assert_eq!(d.old_new_id_dict.get(&50), Some(&1));
    assert_eq!(d.old_new_id_dict.get(&30), Some(&2));
    assert_eq!(d.old_new_id_dict.len(), 2);
}

#[test]
fn inline_and_stored_references_decompile_alike() {
    let mut d = object_data();
    let c = Condition {
        struct_type: 4,
        version: 1,
        evaluator: Evaluator {
            struct_type: 3,
            version: 1,
            buffer: Buffer { struct_type: 2, length: 4, data: vec![0x42, 0x41, 0x95, 0xA1] },
        },
    };
    let v = Arc::new(RefValue::Condition(c));
    d.ref_id_ref_data_map.insert(9, v.clone());
    let mut tw1 = TextWriter::new("x");
    let mut tw2 = TextWriter::new("x");
    Reference { ref_type: 4, id: 9, value: Some(v) }.decompile(&mut tw1, &d).unwrap();
    Reference { ref_type: 4, id: 9, value: None }.decompile(&mut tw2, &d).unwrap();
    assert_eq!(lines(&tw1), lines(&tw2));
    assert_eq!(lines(&tw1), vec!["        if 2 == 1:"]);
}

#[test]
fn equal_transitions_share_one_id() {
    let mut c = ImportantCompData::new(FUNCS, EVENTS).unwrap();
    let mut tr = TextReader::new(
        "#Transitions:\nifGetEventFlag(3)==1:\nState_2()\nifGetEventFlag(3)==1:\nState_2()\nifGetEventFlag(3)==1:\nState_4()",
    );
    let st = State::compile(&mut tr, 1, &mut c).unwrap();
    let refs = &st.transitions.references;
    assert_eq!(refs.len(), 3);
    assert_eq!(refs[0].id, refs[1].id);
    assert!(refs[0].value.is_some());
    assert!(refs[1].value.is_none());
    assert_ne!(refs[0].id, refs[2].id);
    assert_eq!(c.transition_ids, vec![refs[0].id, refs[2].id]);
    assert_eq!(c.state_ref_order, vec![2, 4]);
    assert_eq!(c.transition_count, 3);
}

#[test]
fn objects_of_unaccepted_versions_are_not_read() {
    let mut d = object_data();
    let name = "EzStateExternalEvent".to_string();
    let mut good = BinaryReader::new(vec![0, 5, 0, 0, 0, 2, 0, 0, 0, 42, 0, 0, 0, 1]);
    assert!(read_value(&mut good, &name, &mut d).is_some());
    let mut bad_version = BinaryReader::new(vec![0, 5, 0, 0, 0, 3, 0, 0, 0, 42, 0, 0, 0, 1]);
    assert!(read_value(&mut bad_version, &name, &mut d).is_none());
    let mut bad_type = BinaryReader::new(vec![0, 4, 0, 0, 0, 2, 0, 0, 0, 42, 0, 0, 0, 1]);
    assert!(read_value(&mut bad_type, &name, &mut d).is_none());
}

#[test]
fn function_ids_from_64_compile_to_bytes_that_do_not_decompile() {
    let c = ImportantCompData::new("{\"64\": \"Far\"}", EVENTS).unwrap();
    let bytes = compile_condition("ifFar()==1:", &c).unwrap();
    assert_eq!(bytes, vec![0x80, 0x84, 0x41, 0x95, 0xA1]);
    let d = ImportantData::default(&header_with(&["EzStateProject", "DLVector", "buffer"]), "{\"64\": \"Far\"}", EVENTS).unwrap();
    let mut tw = TextWriter::new("x");
    let buffer = Buffer { struct_type: 3, length: 5, data: bytes };
    assert!(Condition::decompile_condition_buffer(&buffer, &mut tw, &d).is_none());
}
