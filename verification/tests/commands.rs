use demovid::commands::{
    check_assemble_inputs, check_concat_inputs, count_with_extension, init_action,
    not_a_project_message, probe_all_files, project_subdirs, project_yaml, schema_command,
    select_with_extension, sort_names, InitAction, SchemaCommand,
};

fn strings(items: &[&str]) -> Vec<String> {
    items.iter().map(|s| s.to_string()).collect()
}

fn names(items: &[&str]) -> Vec<Vec<u8>> {
    items.iter().map(|s| s.as_bytes().to_vec()).collect()
}

#[test]
fn assemble_needs_two_clips() {
    assert_eq!(check_assemble_inputs(2), Ok(()));
    assert_eq!(
        check_assemble_inputs(1),
        Err("invalid input: provide at least two clips to assemble")
    );
    assert!(check_assemble_inputs(0).is_err());
}

#[test]
fn concat_needs_two_files() {
    assert_eq!(check_concat_inputs(3), Ok(()));
    assert_eq!(
        check_concat_inputs(1),
        Err("invalid input: concat-audio needs at least two input files")
    );
}

#[test]
fn project_layout() {
    assert_eq!(project_subdirs(), strings(&["clips", "audio", "renders", "frames"]));
}

#[test]
fn init_is_idempotent() {
    assert_eq!(init_action(false, false), InitAction::Create);
    assert_eq!(init_action(true, true), InitAction::ReportExisting);
    assert_eq!(init_action(true, false), InitAction::RefuseNotAProject);
    assert_eq!(
        not_a_project_message("/h/demos/x"),
        "Directory exists but is not a valid demovid project (no project.yaml): /h/demos/x"
    );
}

#[test]
fn project_file_gets_slug() {
    assert_eq!(
        project_yaml("version: 1\nslug: {{slug}}\nfile: {{slug}}.mp4 {{slu", "my-demo"),
        "version: 1\nslug: my-demo\nfile: my-demo.mp4 {{slu"
    );
    assert_eq!(project_yaml("{{{slug}}}", "a"), "{a}");
    assert_eq!(project_yaml("", "a"), "");
}

#[test]
fn schema_commands() {
    assert_eq!(schema_command("probe"), Ok(SchemaCommand::Probe));
    assert_eq!(schema_command("probe-all"), Ok(SchemaCommand::ProbeAll));
    assert_eq!(schema_command("frames"), Ok(SchemaCommand::Frames));
    assert_eq!(schema_command("init"), Ok(SchemaCommand::Init));
    assert_eq!(
        schema_command("tts"),
        Err("Unknown command for schema: 'tts'. Valid: probe, probe-all, frames, init".to_string())
    );
}

#[test]
fn extension_selection() {
    let list = names(&["b.MP4", "a.mp4", ".mp4", "c.mp4.txt", "d", "e.Mp4", "..", "f."]);
    assert_eq!(select_with_extension(&list, b"mp4"), names(&["b.MP4", "a.mp4", "e.Mp4"]));
    assert_eq!(count_with_extension(&names(&["frame-0001.png", "x.PNG", "y.jpg"]), b"png"), 2);
    let odd = vec![vec![0xffu8, b'.', b'm', b'p', b'4'], b"z.mp4".to_vec()];
    assert_eq!(select_with_extension(&odd, b"mp4"), odd);
}

#[test]
fn probe_all_sorts_by_name() {
    let list = names(&["clip-2.mp4", "notes.txt", "clip-10.mp4", "Clip-1.MP4", "clip-1.mp4"]);
    assert_eq!(
        probe_all_files(&list),
        names(&["Clip-1.MP4", "clip-1.mp4", "clip-10.mp4", "clip-2.mp4"])
    );
}

#[test]
fn sorting_names() {
    assert_eq!(sort_names(&names(&["b", "a", "ab", "", "a"])), names(&["", "a", "a", "ab", "b"]));
    assert_eq!(sort_names(&Vec::new()), Vec::<Vec<u8>>::new());
    assert_eq!(sort_names(&names(&["é", "z"])), names(&["z", "é"]));
    assert_eq!(
        sort_names(&vec![vec![0xffu8], vec![0x7fu8], vec![0xc3u8, 0xa9]]),
        vec![vec![0x7fu8], vec![0xc3u8, 0xa9], vec![0xffu8]]
    );
}

#[test]
fn probe_all_order_ignores_listing_order() {
    let a = names(&["c.mp4", "a.mp4", "b.MP4", "x.txt"]);
    let b = names(&["x.txt", "b.MP4", "c.mp4", "a.mp4"]);
    assert_eq!(probe_all_files(&a), probe_all_files(&b));
}
