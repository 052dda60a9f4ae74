//! Rewriting robot program files so that they talk to the bridge: the
//! socket set-up that a program needs, and send statements in place of
//! the markers that stand for extruder commands.

use crate::text::{
    chars_of, contains, contains_text, lemma_contains_in_middle, lines, lines_view, occurs_at,
    split_lines, string_of,
};
use crate::trusted::{capture_first_group, first_group};
use vstd::prelude::*;
use vstd::string::StringExecFns;

verus! {

/// Whether `contents` declares, creates and connects the socket already.
pub open spec fn has_socket_setup(contents: Seq<char>) -> bool {
    &&& contains_text(contents, "VAR socketdev my_socket"@)
    &&& contains_text(contents, "SocketCreate my_socket"@)
    &&& contains_text(contents, "SocketConnect my_socket, \"10.0.0.10\", 1234"@)
}

/// Whether one of `lines` holds `needle`.
pub open spec fn any_line_has(lines: Seq<Seq<char>>, needle: Seq<char>) -> bool {
    exists|i: int| 0 <= i < lines.len() && contains_text(#[trigger] lines[i], needle)
}

/// Whether the line at `i` is the first of `lines` that holds `needle`.
pub open spec fn is_first_with(lines: Seq<Seq<char>>, needle: Seq<char>, i: int) -> bool {
    &&& 0 <= i < lines.len()
    &&& contains_text(lines[i], needle)
    &&& forall|j: int| 0 <= j < i ==> !contains_text(#[trigger] lines[j], needle)
}

/// The parts one after another.
pub open spec fn joined(parts: Seq<Seq<char>>) -> Seq<char>
    decreases parts.len(),
{
    if parts.len() == 0 {
        Seq::empty()
    } else {
        joined(parts.drop_last()) + parts.last()
    }
}

/// What the line at `i` becomes: the line with its line feed; after the
/// first line that holds `MODULE`, the declaration of the socket; after
/// the first that holds `PROC`, its creation and connection.
pub open spec fn line_with_setup(lines: Seq<Seq<char>>, i: int) -> Seq<char> {
    lines[i].push('\n') + (if is_first_with(lines, "MODULE"@, i) {
        "VAR socketdev my_socket;\n"@
    } else {
        Seq::empty()
    }) + (if is_first_with(lines, "PROC"@, i) {
        "\tSocketCreate my_socket;\n\tSocketConnect my_socket, \"10.0.0.10\", 1234;\n"@
    } else {
        Seq::empty()
    })
}

/// The program `contents` with the socket set-up: unchanged where it has
/// one; else with the declaration after the first module line and the
/// creation and connection after the first procedure line. Where the
/// program has no module line, or no procedure line, the result is the
/// message that says so.
pub open spec fn with_socket_setup(contents: Seq<char>) -> Seq<char> {
    let lines = split_lines(contents);
    if has_socket_setup(contents) {
        contents
    } else if !any_line_has(lines, "MODULE"@) {
        "Error: Could not find the MODULE line."@
    } else if !any_line_has(lines, "PROC"@) {
        "Error: Could not find the PROC main_RoboDK() line."@
    } else {
        joined(Seq::new(lines.len(), |i: int| line_with_setup(lines, i)))
    }
}

/// What occurs in a part occurs in the parts joined.
pub proof fn lemma_joined_holds_parts(parts: Seq<Seq<char>>, k: int, needle: Seq<char>)
    requires
        0 <= k < parts.len(),
        contains_text(parts[k], needle),
    ensures
        contains_text(joined(parts), needle),
    decreases parts.len(),
{
    let front = joined(parts.drop_last());
    if k == parts.len() - 1 {
        lemma_contains_in_middle(front, parts.last(), Seq::empty(), needle);
        assert(front + parts.last() + Seq::<char>::empty() =~= joined(parts));
    } else {
        lemma_joined_holds_parts(parts.drop_last(), k, needle);
        lemma_contains_in_middle(Seq::empty(), front, parts.last(), needle);
        assert(Seq::<char>::empty() + front + parts.last() =~= joined(parts));
    }
}

/// Where a line holds `needle`, one line is the first that does.
pub proof fn lemma_some_line_is_first(lines: Seq<Seq<char>>, needle: Seq<char>) -> (first: int)
    requires
        any_line_has(lines, needle),
    ensures
        is_first_with(lines, needle, first),
    decreases lines.len(),
{
    let i = choose|i: int| 0 <= i < lines.len() && contains_text(#[trigger] lines[i], needle);
    let earlier = lines.take(i);
    if any_line_has(earlier, needle) {
        let first = lemma_some_line_is_first(earlier, needle);
        assert(lines[first] == earlier[first]);
        assert forall|j: int| 0 <= j < first implies !contains_text(#[trigger] lines[j], needle) by {
            assert(lines[j] == earlier[j]);
        }
        first
    } else {
        assert forall|j: int| 0 <= j < i implies !contains_text(#[trigger] lines[j], needle) by {
            assert(earlier[j] == lines[j]);
        }
        i
    }
}

/// The socket set-up is put in once: a program that was given the set-up
/// has it, so that giving it again changes nothing.
pub proof fn lemma_setup_is_put_in_once(contents: Seq<char>)
    requires
        has_socket_setup(contents) || (any_line_has(split_lines(contents), "MODULE"@)
            && any_line_has(split_lines(contents), "PROC"@)),
    ensures
        has_socket_setup(with_socket_setup(contents)),
        with_socket_setup(with_socket_setup(contents)) == with_socket_setup(contents),
{
    if !has_socket_setup(contents) {
        let lines = split_lines(contents);
        let parts = Seq::new(lines.len(), |i: int| line_with_setup(lines, i));
        let m = lemma_some_line_is_first(lines, "MODULE"@);
        let p = lemma_some_line_is_first(lines, "PROC"@);
        let declaration = "VAR socketdev my_socket;\n"@;
        let connection =
            "\tSocketCreate my_socket;\n\tSocketConnect my_socket, \"10.0.0.10\", 1234;\n"@;
        reveal_strlit("VAR socketdev my_socket;\n");
        reveal_strlit("VAR socketdev my_socket");
        reveal_strlit("\tSocketCreate my_socket;\n\tSocketConnect my_socket, \"10.0.0.10\", 1234;\n");
        reveal_strlit("SocketCreate my_socket");
        reveal_strlit("SocketConnect my_socket, \"10.0.0.10\", 1234");
        assert(occurs_at(declaration, "VAR socketdev my_socket"@, 0)) by {
            assert(declaration.subrange(0, 23) =~= "VAR socketdev my_socket"@);
        }
        assert(occurs_at(connection, "SocketCreate my_socket"@, 1)) by {
            assert(connection.subrange(1, 23) =~= "SocketCreate my_socket"@);
        }
        assert(occurs_at(connection, "SocketConnect my_socket, \"10.0.0.10\", 1234"@, 26)) by {
            assert(connection.subrange(26, 68)
                =~= "SocketConnect my_socket, \"10.0.0.10\", 1234"@);
        }
        let after_m = if is_first_with(lines, "PROC"@, m) {
            connection
        } else {
            Seq::empty()
        };
        lemma_contains_in_middle(
            lines[m].push('\n'),
            declaration,
            after_m,
            "VAR socketdev my_socket"@,
        );
        lemma_joined_holds_parts(parts, m, "VAR socketdev my_socket"@);
        let before_p = lines[p].push('\n') + (if is_first_with(lines, "MODULE"@, p) {
            declaration
        } else {
            Seq::empty()
        });
        lemma_contains_in_middle(before_p, connection, Seq::empty(), "SocketCreate my_socket"@);
        lemma_contains_in_middle(
            before_p,
            connection,
            Seq::empty(),
            "SocketConnect my_socket, \"10.0.0.10\", 1234"@,
        );
        assert(before_p + connection + Seq::<char>::empty() =~= parts[p]);
        lemma_joined_holds_parts(parts, p, "SocketCreate my_socket"@);
        lemma_joined_holds_parts(parts, p, "SocketConnect my_socket, \"10.0.0.10\", 1234"@);
    }
}

/// Appends `chars` to `out`.
pub fn push_chars(out: &mut String, chars: &Vec<char>)
    ensures
        final(out)@ == old(out)@ + chars@,
{
    let ghost before = out@;
    let mut i: usize = 0;
    assert(before + chars@.take(0) =~= before);
    while i < chars.len()
        invariant
            i <= chars.len(),
            out@ == before + chars@.take(i as int),
        decreases chars.len() - i,
    {
        out.push(chars[i]);
        i += 1;
        assert(out@ =~= before + chars@.take(i as int));
    }
    assert(chars@.take(i as int) =~= chars@);
}

/// Gives the program `contents` its socket set-up.
pub fn search_and_create_socket(contents: &String, _postprocess: &String) -> (result: String)
    ensures
        result@ == with_socket_setup(contents@),
{
    let text = chars_of(contents.as_str());
    if contains(&text, &chars_of("VAR socketdev my_socket")) && contains(
        &text,
        &chars_of("SocketCreate my_socket"),
    ) && contains(&text, &chars_of("SocketConnect my_socket, \"10.0.0.10\", 1234")) {
        return contents.clone();
    }
    let module = chars_of("MODULE");
    let procedure = chars_of("PROC");
    let all = lines(&text);
    let ghost ls = split_lines(contents@);
    let mut out = String::new();
    let mut module_found = false;
    let mut proc_found = false;
    let mut i: usize = 0;
    while i < all.len()
        invariant
            i <= all.len(),
            lines_view(all@) == ls,
            module@ == "MODULE"@,
            procedure@ == "PROC"@,
            module_found <==> exists|j: int| 0 <= j < i && contains_text(#[trigger] ls[j], "MODULE"@),
            proc_found <==> exists|j: int| 0 <= j < i && contains_text(#[trigger] ls[j], "PROC"@),
            out@ == joined(Seq::new(i as nat, |k: int| line_with_setup(ls, k))),
        decreases all.len() - i,
    {
        let ghost above = out@;
        assert(ls[i as int] == all@[i as int]@);
        push_chars(&mut out, &all[i]);
        out.push('\n');
        let has_module = contains(&all[i], &module);
        let has_proc = contains(&all[i], &procedure);
        if has_module && !module_found {
            module_found = true;
            out.append("VAR socketdev my_socket;\n");
        }
        if has_proc && !proc_found {
            proc_found = true;
            out.append(
                "\tSocketCreate my_socket;\n\tSocketConnect my_socket, \"10.0.0.10\", 1234;\n",
            );
        }
        proof {
            let done = Seq::new((i + 1) as nat, |k: int| line_with_setup(ls, k));
            assert(done.drop_last() =~= Seq::new(i as nat, |k: int| line_with_setup(ls, k)));
            assert(out@ =~= above + line_with_setup(ls, i as int));
            assert(done.last() == line_with_setup(ls, i as int));
        }
        i += 1;
    }
    if !module_found {
        return "Error: Could not find the MODULE line.".to_owned();
    }
    if !proc_found {
        return "Error: Could not find the PROC main_RoboDK() line.".to_owned();
    }
    out
}

/// A marker that a program file uses for a command to the extruder.
#[derive(Clone, Copy, Debug, PartialEq, Eq, Structural)]
pub enum Marker {
    /// An amount to extrude.
    Extruder,
    /// A speed of the extruder.
    SetRpm,
    /// A machine code to run.
    RunCode,
}

/// The letter that starts the message sent in place of `marker`.
pub open spec fn letter_of(marker: Marker) -> char {
    match marker {
        Marker::Extruder => 'E',
        Marker::SetRpm => 'F',
        Marker::RunCode => 'M',
    }
}

/// The regular expression that finds `marker` and captures its number: in
/// the `rapid` dialect the number follows the name at once, elsewhere a
/// white-space character stands between the two, but for the extruder
/// marker, which is written in one way only.
pub open spec fn pattern_of(marker: Marker, rapid: bool) -> Seq<char> {
    match marker {
        Marker::Extruder => "Extruder(\\d+)"@,
        Marker::SetRpm => if rapid {
            "SetRPM(\\d+)"@
        } else {
            "SetRPM\\s(\\d+)"@
        },
        Marker::RunCode => if rapid {
            "M_RunCode(\\d+)"@
        } else {
            "M_RunCode\\s(\\d+)"@
        },
    }
}

/// The letter that starts the message sent in place of `marker`.
pub fn marker_letter(marker: Marker) -> (letter: char)
    ensures
        letter == letter_of(marker),
{
    match marker {
        Marker::Extruder => 'E',
        Marker::SetRpm => 'F',
        Marker::RunCode => 'M',
    }
}

/// The regular expression that finds `marker` in the dialect
/// `postprocess`.
pub fn marker_pattern(marker: Marker, postprocess: &str) -> (pattern: String)
    ensures
        pattern@ == pattern_of(marker, postprocess@ == "rapid"@),
{
    let rapid = postprocess.eq("rapid");
    match marker {
        Marker::Extruder => "Extruder(\\d+)".to_owned(),
        Marker::SetRpm => if rapid {
            "SetRPM(\\d+)".to_owned()
        } else {
            "SetRPM\\s(\\d+)".to_owned()
        },
        Marker::RunCode => if rapid {
            "M_RunCode(\\d+)".to_owned()
        } else {
            "M_RunCode\\s(\\d+)".to_owned()
        },
    }
}

/// The texts of `numbers`, in order.
pub open spec fn numbers_view(numbers: Seq<Option<String>>) -> Seq<Option<Seq<char>>> {
    numbers.map_values(
        |n: Option<String>|
            match n {
                Some(s) => Some(s@),
                None => None,
            },
    )
}

/// For each line of `contents`, what the first group of `pattern`
/// captures in it.
pub open spec fn found_numbers(contents: Seq<char>, pattern: Seq<char>) -> Seq<Option<Seq<char>>> {
    let lines = split_lines(contents);
    Seq::new(lines.len(), |i: int| first_group(pattern, lines[i]))
}

/// Looks for `pattern` in each line of `contents`: one entry for each
/// line, with what the first group captured where the line matches.
pub fn find_numbers(contents: &str, pattern: &str) -> (numbers: Vec<Option<String>>)
    ensures
        numbers_view(numbers@) == found_numbers(contents@, pattern@),
{
    let text = chars_of(contents);
    let all = lines(&text);
    let ghost ls = split_lines(contents@);
    let mut numbers: Vec<Option<String>> = Vec::new();
    let mut i: usize = 0;
    while i < all.len()
        invariant
            i <= all.len(),
            lines_view(all@) == ls,
            numbers_view(numbers@) == Seq::new(i as nat, |k: int| first_group(pattern@, ls[k])),
        decreases all.len() - i,
    {
        let ghost above = numbers_view(numbers@);
        assert(ls[i as int] == all@[i as int]@);
        let line = string_of(&all[i], 0, all[i].len());
        assert(line@ =~= ls[i as int]);
        let found = capture_first_group(pattern, line.as_str());
        numbers.push(found);
        i += 1;
        assert(numbers_view(numbers@) =~= above.push(first_group(pattern@, ls[i - 1])));
        assert(above.push(first_group(pattern@, ls[i - 1])) =~= Seq::new(
            i as nat,
            |k: int| first_group(pattern@, ls[k]),
        ));
    }
    numbers
}

/// The statement that sends `letter` and `number` over the socket, as a
/// line of a program.
pub open spec fn send_statement(letter: char, number: Seq<char>) -> Seq<char> {
    "    SocketSend my_socket \\Str := \""@.push(letter) + number + "\";\n"@
}

/// The statement that sends `letter` and `number` over the socket.
pub fn format_send(letter: char, number: &str) -> (statement: String)
    ensures
        statement@ == send_statement(letter, number@),
{
    let mut statement = "    SocketSend my_socket \\Str := \"".to_owned();
    statement.push(letter);
    statement.append(number);
    statement.append("\";\n");
    statement
}

/// The entry of `numbers` for the line at `i`; none beyond its end.
pub open spec fn number_at(numbers: Seq<Option<Seq<char>>>, i: int) -> Option<Seq<char>> {
    if 0 <= i < numbers.len() {
        numbers[i]
    } else {
        None
    }
}

/// What a line becomes: the send statement for its number where it has
/// one, else the line with its line feed.
pub open spec fn replaced_line(line: Seq<char>, letter: char, number: Option<Seq<char>>) -> Seq<
    char,
> {
    match number {
        Some(n) => send_statement(letter, n),
        None => line.push('\n'),
    }
}

/// The program `contents` with each line that has a number replaced by
/// the statement that sends `letter` and the number.
pub open spec fn with_sends(
    contents: Seq<char>,
    letter: char,
    numbers: Seq<Option<Seq<char>>>,
) -> Seq<char> {
    let lines = split_lines(contents);
    joined(
        Seq::new(lines.len(), |i: int| replaced_line(lines[i], letter, number_at(numbers, i))),
    )
}

/// Replaces each line of `contents` for which `numbers` holds a number by
/// the statement that sends `letter` and that number. The entries of
/// `numbers` stand for the lines in their order; lines beyond its end are
/// kept.
pub fn replace_lines(contents: &str, letter: char, numbers: &Vec<Option<String>>) -> (result:
    String)
    ensures
        result@ == with_sends(contents@, letter, numbers_view(numbers@)),
{
    let text = chars_of(contents);
    let all = lines(&text);
    let ghost ls = split_lines(contents@);
    let ghost ns = numbers_view(numbers@);
    let mut out = String::new();
    let mut i: usize = 0;
    while i < all.len()
        invariant
            i <= all.len(),
            lines_view(all@) == ls,
            ns == numbers_view(numbers@),
            out@ == joined(
                Seq::new(i as nat, |k: int| replaced_line(ls[k], letter, number_at(ns, k))),
            ),
        decreases all.len() - i,
    {
        let ghost above = out@;
        assert(ls[i as int] == all@[i as int]@);
        let mut kept = true;
        if i < numbers.len() {
            assert(ns[i as int] == match numbers@[i as int] {
                Some(s) => Some(s@),
                None => None,
            });
            if let Some(number) = &numbers[i] {
                let statement = format_send(letter, number.as_str());
                out.append(statement.as_str());
                kept = false;
            }
        }
        if kept {
            push_chars(&mut out, &all[i]);
            out.push('\n');
        }
        proof {
            let f = |k: int| replaced_line(ls[k], letter, number_at(ns, k));
            let done = Seq::new((i + 1) as nat, f);
            assert(done.drop_last() =~= Seq::new(i as nat, f));
            assert(out@ =~= above + f(i as int));
            assert(done.last() == f(i as int));
        }
        i += 1;
    }
    out
}

/// What the converter makes of a file, by the extension of its name.
#[derive(Clone, Copy, Debug, PartialEq, Eq, Structural)]
pub enum FileKind {
    /// A program module: it is converted.
    Program,
    /// A file of another kind: it is refused.
    Unsupported,
    /// A file whose name has no extension: it is refused.
    NoExtension,
}

/// The kind of a file by its extension: only `mod` names a program.
pub open spec fn kind_of(extension: Option<Seq<char>>) -> FileKind {
    match extension {
        Some(ext) => if ext == "mod"@ {
            FileKind::Program
        } else {
            FileKind::Unsupported
        },
        None => FileKind::NoExtension,
    }
}

/// The kind of a file whose name has the extension `extension`.
pub fn classify_extension(extension: Option<&str>) -> (kind: FileKind)
    ensures
        kind == kind_of(
            match extension {
                Some(ext) => Some(ext@),
                None => None,
            },
        ),
{
    match extension {
        Some(ext) => if ext.eq("mod") {
            FileKind::Program
        } else {
            FileKind::Unsupported
        },
        None => FileKind::NoExtension,
    }
}

} // verus!
