//! Opening reviewed files in an editor.
use crate::errors::{invalid, DispatchError};
use crate::events::{is_below, parts_below, path_parts, split_path};
use crate::repositories::SourceKind;
use crate::text::{decimal, push_decimal, text_eq, texts};
use vstd::prelude::*;
use vstd::string::*;

verus! {

/// A program to start, with its arguments.
#[derive(Debug)]
pub struct EditorCommand {
    pub program: String,
    pub arguments: Vec<String>,
}

/// The program of an editor and the arguments that make it show a line of a
/// file. An editor that is not known is left to the system.
pub open spec fn editor_chars(editor: Seq<char>, path: Seq<char>, line: u32, macos: bool) -> (
    Seq<char>,
    Seq<Seq<char>>,
) {
    let place = path + ":"@ + decimal(line as nat);
    if editor == "vscode"@ {
        ("code"@, seq!["--goto"@, place])
    } else if editor == "cursor"@ {
        ("cursor"@, seq!["--goto"@, place])
    } else if editor == "zed"@ {
        ("zed"@, seq![place])
    } else if editor == "sublime"@ {
        ("subl"@, seq![place])
    } else if editor == "idea"@ {
        ("idea"@, seq!["--line"@, decimal(line as nat), path])
    } else if macos {
        ("open"@, seq![path])
    } else {
        ("xdg-open"@, seq![path])
    }
}

fn command_with(program: &str, first: String) -> (command: EditorCommand)
    ensures
        command.program@ == program@,
        texts(command.arguments@) == seq![first@],
{
    let ghost text = first@;
    let mut arguments: Vec<String> = Vec::new();
    arguments.push(first);
    assert(texts(arguments@) =~= seq![text]);
    EditorCommand { program: program.to_owned(), arguments }
}

fn goto_command(program: &str, place: String) -> (command: EditorCommand)
    ensures
        command.program@ == program@,
        texts(command.arguments@) == seq!["--goto"@, place@],
{
    let ghost text = place@;
    let mut arguments: Vec<String> = Vec::new();
    arguments.push("--goto".to_owned());
    arguments.push(place);
    assert(texts(arguments@) =~= seq!["--goto"@, text]);
    EditorCommand { program: program.to_owned(), arguments }
}

/// Works out how to start an editor at a line of a file.
pub fn external_editor_command(editor: &str, path: &str, line: u32, macos: bool) -> (command:
    EditorCommand)
    ensures
        (command.program@, texts(command.arguments@)) == editor_chars(editor@, path@, line, macos),
{
    let mut place = path.to_owned();
    place.append(":");
    push_decimal(&mut place, line as u64);
    if text_eq(editor, "vscode") {
        goto_command("code", place)
    } else if text_eq(editor, "cursor") {
        goto_command("cursor", place)
    } else if text_eq(editor, "zed") {
        command_with("zed", place)
    } else if text_eq(editor, "sublime") {
        command_with("subl", place)
    } else if text_eq(editor, "idea") {
        let mut number = String::new();
        push_decimal(&mut number, line as u64);
        assert(number@ =~= decimal(line as nat));
        let ghost shown = number@;
        let mut arguments: Vec<String> = Vec::new();
        arguments.push("--line".to_owned());
        arguments.push(number);
        arguments.push(path.to_owned());
        assert(texts(arguments@) =~= seq!["--line"@, shown, path@]);
        EditorCommand { program: "idea".to_owned(), arguments }
    } else if macos {
        command_with("open", path.to_owned())
    } else {
        command_with("xdg-open", path.to_owned())
    }
}

/// Checks that a file of a workspace may be edited at a line.
pub fn check_editor_request(source: SourceKind, line: Option<u32>) -> (result: Result<
    u32,
    DispatchError,
>)
    ensures
        if source != SourceKind::Local {
            result matches Err(error) && error.is_invalid(
                "external editing is unavailable for app-managed or remote review worktrees"@,
            )
        } else if line == Some(0u32) {
            result matches Err(error) && error.is_invalid("editor line must be positive"@)
        } else {
            result == Ok::<u32, DispatchError>(
                match line {
                    Some(number) => number,
                    None => 1,
                },
            )
        },
{
    if source != SourceKind::Local {
        return Err(
            invalid("external editing is unavailable for app-managed or remote review worktrees"),
        );
    }
    match line {
        Some(number) => {
            if number == 0 {
                return Err(invalid("editor line must be positive"));
            }
            Ok(number)
        },
        None => Ok(1),
    }
}

/// Checks that a file lies inside its repository, and the repository inside
/// its workspace. All three are complete paths without links.
pub fn check_editor_paths(workspace_root: &str, repository_root: &str, target: &str, is_file: bool) -> (result:
    Result<(), DispatchError>)
    ensures
        if !parts_below(path_parts(repository_root@), path_parts(workspace_root@)) {
            result matches Err(error) && error.is_invalid(
                "repository path is outside the local workspace"@,
            )
        } else if !parts_below(path_parts(target@), path_parts(repository_root@)) {
            result matches Err(error) && error.is_invalid(
                "reviewed path escapes the local repository"@,
            )
        } else if !is_file {
            result matches Err(error) && error.is_invalid("reviewed path is not a regular file"@)
        } else {
            result is Ok
        },
{
    let outer = split_path(workspace_root);
    let inner = split_path(repository_root);
    let file = split_path(target);
    if !is_below(&inner, &outer) {
        return Err(invalid("repository path is outside the local workspace"));
    }
    if !is_below(&file, &inner) {
        return Err(invalid("reviewed path escapes the local repository"));
    }
    if !is_file {
        return Err(invalid("reviewed path is not a regular file"));
    }
    Ok(())
}

/// A file that may be edited lies inside its workspace.
pub proof fn law_edited_files_lie_in_the_workspace(
    workspace_root: Seq<char>,
    repository_root: Seq<char>,
    target: Seq<char>,
)
    requires
        parts_below(path_parts(repository_root), path_parts(workspace_root)),
        parts_below(path_parts(target), path_parts(repository_root)),
    ensures
        parts_below(path_parts(target), path_parts(workspace_root)),
{
    let outer = path_parts(workspace_root);
    let inner = path_parts(repository_root);
    let file = path_parts(target);
    assert(file.take(outer.len() as int) =~= inner.take(outer.len() as int)) by {
        assert(forall|i: int|
            0 <= i < inner.len() ==> file[i] == #[trigger] file.take(inner.len() as int)[i]);
    }
}

} // verus!
