use klipper_bridge::converter::{
    classify_extension, find_numbers, format_send, marker_letter, marker_pattern, push_chars,
    replace_lines, search_and_create_socket, FileKind, Marker,
};

const DECLARATION: &str = "VAR socketdev my_socket;\n";
const CONNECTION: &str =
    "\tSocketCreate my_socket;\n\tSocketConnect my_socket, \"10.0.0.10\", 1234;\n";

fn with_setup(contents: &str) -> String {
    search_and_create_socket(&contents.to_string(), &"rapid".to_string())
}

fn expected_setup(contents: &str) -> String {
    if contents.contains("VAR socketdev my_socket")
        && contents.contains("SocketCreate my_socket")
        && contents.contains("SocketConnect my_socket, \"10.0.0.10\", 1234")
    {
        return contents.to_string();
    }
    let mut out = String::new();
    let mut module_found = false;
    let mut proc_found = false;
    for line in contents.lines() {
        out.push_str(line);
        out.push('\n');
        if line.contains("MODULE") && !module_found {
            module_found = true;
            out.push_str(DECLARATION);
        }
        if line.contains("PROC") && !proc_found {
            proc_found = true;
            out.push_str(CONNECTION);
        }
    }
    if !module_found {
        return "Error: Could not find the MODULE line.".to_string();
    }
    if !proc_found {
        return "Error: Could not find the PROC main_RoboDK() line.".to_string();
    }
    out
}

#[test]
fn the_setup_follows_the_first_module_and_procedure_lines() {
    let program = "MODULE MainModule\n  PROC main_RoboDK()\n    MoveL target;\n  ENDPROC\nENDMODULE";
    assert_eq!(
        with_setup(program),
        "MODULE MainModule\nVAR socketdev my_socket;\n  PROC main_RoboDK()\n\tSocketCreate my_socket;\n\tSocketConnect my_socket, \"10.0.0.10\", 1234;\n    MoveL target;\n  ENDPROC\nENDMODULE\n"
    );
}

#[test]
fn a_program_with_the_setup_is_left_alone() {
    let program = "MODULE M\nVAR socketdev my_socket;\nPROC main()\n\tSocketCreate my_socket;\n\tSocketConnect my_socket, \"10.0.0.10\", 1234;\nENDPROC\nENDMODULE";
    assert_eq!(with_setup(program), program);
    let once = with_setup("MODULE M\r\nPROC main()\r\nENDPROC\r\nENDMODULE\r\n");
    assert_eq!(with_setup(&once), once);
}

#[test]
fn a_partial_setup_is_completed_by_a_full_one() {
    let program = "MODULE M\nVAR socketdev my_socket;\nPROC main()\nENDPROC";
    assert_eq!(
        with_setup(program),
        "MODULE M\nVAR socketdev my_socket;\nVAR socketdev my_socket;\nPROC main()\n\tSocketCreate my_socket;\n\tSocketConnect my_socket, \"10.0.0.10\", 1234;\nENDPROC\n"
    );
}

#[test]
fn a_line_may_be_both_module_and_procedure() {
    assert_eq!(
        with_setup("MODULE M PROC main()"),
        format!("MODULE M PROC main()\n{}{}", DECLARATION, CONNECTION)
    );
    assert_eq!(
        with_setup("PROC early()\nMODULE late"),
        format!("PROC early()\n{}MODULE late\n{}", CONNECTION, DECLARATION)
    );
}

#[test]
fn a_program_without_module_or_procedure_gives_the_message() {
    assert_eq!(with_setup(""), "Error: Could not find the MODULE line.");
    assert_eq!(with_setup("PROC main()\nENDPROC"), "Error: Could not find the MODULE line.");
    assert_eq!(
        with_setup("MODULE M\nENDMODULE\n"),
        "Error: Could not find the PROC main_RoboDK() line."
    );
    assert_eq!(with_setup("module m\nproc p"), "Error: Could not find the MODULE line.");
}

#[test]
fn the_dialect_does_not_matter_to_the_setup() {
    let program = "MODULE M\nPROC p()\nENDPROC\nENDMODULE";
    assert_eq!(
        search_and_create_socket(&program.to_string(), &"rapid".to_string()),
        search_and_create_socket(&program.to_string(), &"other".to_string())
    );
}

#[test]
fn the_setup_agrees_with_a_plain_rendering() {
    let samples = [
        "",
        "\n",
        "MODULE",
        "PROC",
        "MODULE\nPROC",
        "MODULE\r\nPROC\r\n",
        "MODULE M\nPROC a()\nENDPROC\nPROC b()\nENDPROC\nENDMODULE\n",
        "x\nENDMODULE\nENDPROC\n",
        "MODULE M\n\n\nPROC p\r",
        "VAR socketdev my_socket\nSocketCreate my_socket\nMODULE\nPROC",
        "VAR socketdev my_socket SocketCreate my_socket SocketConnect my_socket, \"10.0.0.10\", 1234",
        "%%%\nMODULE Ünïcödé\n  PROC main_RoboDK()\n    Extruder100\n  ENDPROC\nENDMODULE",
    ];
    for s in samples {
        assert_eq!(with_setup(s), expected_setup(s), "program {:?}", s);
    }
}

#[test]
fn markers_have_letters_and_patterns() {
    assert_eq!(marker_letter(Marker::Extruder), 'E');
    assert_eq!(marker_letter(Marker::SetRpm), 'F');
    assert_eq!(marker_letter(Marker::RunCode), 'M');
    assert_eq!(marker_pattern(Marker::Extruder, "rapid"), r"Extruder(\d+)");
    assert_eq!(marker_pattern(Marker::Extruder, "kuka"), r"Extruder(\d+)");
    assert_eq!(marker_pattern(Marker::SetRpm, "rapid"), r"SetRPM(\d+)");
    assert_eq!(marker_pattern(Marker::SetRpm, "kuka"), r"SetRPM\s(\d+)");
    assert_eq!(marker_pattern(Marker::SetRpm, "RAPID"), r"SetRPM\s(\d+)");
    assert_eq!(marker_pattern(Marker::RunCode, "rapid"), r"M_RunCode(\d+)");
    assert_eq!(marker_pattern(Marker::RunCode, ""), r"M_RunCode\s(\d+)");
}

#[test]
fn numbers_are_found_line_by_line() {
    let program = "    SetRPM100;\n    MoveL target;\n    SetRPM 200;\nx SetRPM7 SetRPM8\nSetRPM";
    assert_eq!(
        find_numbers(program, r"SetRPM(\d+)"),
        vec![Some("100".to_string()), None, None, Some("7".to_string()), None]
    );
    assert_eq!(
        find_numbers(program, r"SetRPM\s(\d+)"),
        vec![None, None, Some("200".to_string()), None, None]
    );
    assert_eq!(find_numbers("", r"SetRPM(\d+)"), Vec::<Option<String>>::new());
    assert_eq!(find_numbers("M_RunCode42 and more\r\n", r"M_RunCode(\d+)"), vec![Some("42".to_string())]);
}

#[test]
fn a_pattern_that_does_not_compile_finds_nothing() {
    assert_eq!(find_numbers("SetRPM(1\nnext", r"SetRPM(\d+"), vec![None, None]);
}

#[test]
fn a_pattern_without_a_group_finds_nothing() {
    assert_eq!(find_numbers("SetRPM1", r"SetRPM\d+"), vec![None]);
}

#[test]
fn send_statements() {
    assert_eq!(format_send('F', "100"), "    SocketSend my_socket \\Str := \"F100\";\n");
    assert_eq!(format_send('E', "0.001"), "    SocketSend my_socket \\Str := \"E0.001\";\n");
    assert_eq!(format_send('M', ""), "    SocketSend my_socket \\Str := \"M\";\n");
}

#[test]
fn lines_with_numbers_become_send_statements() {
    let program = "SetRPM100;\r\nMoveL target;\nSetRPM 200;";
    let numbers = vec![Some("100".to_string()), None, Some("200".to_string())];
    assert_eq!(
        replace_lines(program, 'F', &numbers),
        "    SocketSend my_socket \\Str := \"F100\";\nMoveL target;\n    SocketSend my_socket \\Str := \"F200\";\n"
    );
    assert_eq!(replace_lines(program, 'F', &Vec::new()), "SetRPM100;\nMoveL target;\nSetRPM 200;\n");
    assert_eq!(
        replace_lines(program, 'M', &vec![None, Some("7".to_string())]),
        "SetRPM100;\n    SocketSend my_socket \\Str := \"M7\";\nSetRPM 200;\n"
    );
    assert_eq!(
        replace_lines("one", 'E', &vec![None, Some("7".to_string()), Some("8".to_string())]),
        "one\n"
    );
    assert_eq!(replace_lines("", 'E', &vec![Some("7".to_string())]), "");
}

#[test]
fn speeds_are_sent_as_numbers() {
    let program = "PROC p()\n  SetRPM0100\n  MoveL target\n  SetRPM250\nENDPROC\n";
    let pattern = marker_pattern(Marker::SetRpm, "rapid");
    let numbers: Vec<Option<String>> = find_numbers(program, &pattern)
        .into_iter()
        .map(|found| found.map(|digits| format!("{}", digits.parse::<f32>().unwrap())))
        .collect();
    assert_eq!(
        replace_lines(program, marker_letter(Marker::SetRpm), &numbers),
        "PROC p()\n    SocketSend my_socket \\Str := \"F100\";\n  MoveL target\n    SocketSend my_socket \\Str := \"F250\";\nENDPROC\n"
    );
}

#[test]
fn extruder_amounts_are_scaled() {
    let program = "Extruder150000\nExtruder5\n";
    let pattern = marker_pattern(Marker::Extruder, "rapid");
    let numbers: Vec<Option<String>> = find_numbers(program, &pattern)
        .into_iter()
        .map(|found| found.map(|digits| format!("{}", digits.parse::<f32>().unwrap() / 100000.00)))
        .collect();
    assert_eq!(
        replace_lines(program, marker_letter(Marker::Extruder), &numbers),
        "    SocketSend my_socket \\Str := \"E1.5\";\n    SocketSend my_socket \\Str := \"E0.00005\";\n"
    );
}

#[test]
fn push_chars_appends() {
    let mut s = String::from("a");
    push_chars(&mut s, &vec!['b', '✅']);
    push_chars(&mut s, &Vec::new());
    assert_eq!(s, "ab✅");
}

#[test]
fn only_modules_are_programs() {
    assert_eq!(classify_extension(Some("mod")), FileKind::Program);
    assert_eq!(classify_extension(Some("MOD")), FileKind::Unsupported);
    assert_eq!(classify_extension(Some("txt")), FileKind::Unsupported);
    assert_eq!(classify_extension(Some("")), FileKind::Unsupported);
    assert_eq!(classify_extension(None), FileKind::NoExtension);
}
