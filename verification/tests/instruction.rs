//! What a producer tells its consumers, and what is refused before it is stored.
use onepipeline::instruction::{
    arrival_note, instructions, opens_a_section, CrossRepoReference, Guard, InstructionTemplate,
    DEFAULT_INSTRUCTION, MAX_INSTRUCTION, OBSERVED_STATE_FRAMING, VARIABLES, VARIABLES_LISTED,
};

fn template(source: &str) -> InstructionTemplate {
    InstructionTemplate::try_from(source.to_string()).expect("an instruction")
}

fn refused(source: &str) -> String {
    match InstructionTemplate::try_from(source.to_string()) {
        Ok(_) => panic!("{source:?} was accepted"),
        Err(why) => why,
    }
}

fn row(version: &str, source: &str) -> CrossRepoReference {
    CrossRepoReference {
        dependency: "dep".into(),
        repository: "github.com/org/dep".into(),
        branch: "main".into(),
        commit: "abc123".into(),
        release_target: "crates.io/dep".into(),
        version: version.into(),
        instruction: template(source),
    }
}

fn rendered(version: &str, source: &str) -> String {
    let of = row(version, source);
    of.instruction.render(&of)
}

#[test]
fn each_variable_is_worth_its_own_cell() {
    let source = "{{dependency}} {{ repository }} {{branch}} {{commit}} {{target}} {{version}}";
    assert_eq!(
        rendered("1.2.3", source),
        "dep github.com/org/dep main abc123 crates.io/dep 1.2.3"
    );
    assert_eq!(VARIABLES.len(), 6);
}

#[test]
fn a_section_and_its_inverse_divide_every_row() {
    let source = "{{#version}}Take {{version}}.{{/version}}{{^version}} Wait. {{/version}}";
    assert_eq!(rendered("1.2.3", source), "Take 1.2.3.");
    assert_eq!(rendered("", source), "Wait.");
    assert_eq!(
        rendered("2", "{{#version}}a{{#branch}}b{{/branch}}{{^branch}}c{{/branch}}{{/version}}"),
        "ab"
    );
    assert!(Guard::WhenSet.holds("x") && !Guard::WhenUnset.holds("x"));
    assert!(!Guard::WhenSet.holds("") && Guard::WhenUnset.holds(""));
}

#[test]
fn a_template_without_a_tag_renders_as_itself() {
    assert_eq!(rendered("1", "  Read the notes. "), "Read the notes.");
    assert_eq!(rendered("1", "a { b } c }}"), "a { b } c }}");
    assert_eq!(InstructionTemplate::default().as_str(), DEFAULT_INSTRUCTION);
    let kept = template("Take {{version}}.");
    assert_eq!(kept.clone().into_string(), "Take {{version}}.");
    assert_eq!(kept.as_str(), "Take {{version}}.");
}

#[test]
fn each_fault_is_refused_by_its_own_words() {
    assert_eq!(refused(" \n"), "a release instruction cannot be blank");
    assert_eq!(
        refused("{{version"),
        "a release instruction opens `{{` and never closes it"
    );
    assert_eq!(
        refused("{{#version}}x"),
        "a release instruction opens `{{#version}}` and never closes it"
    );
    assert_eq!(
        refused("x{{/version}}"),
        "a release instruction closes `{{/version}}`, which it never opened"
    );
    assert_eq!(
        refused("{{#version}}{{/branch}}"),
        "a release instruction closes `{{/branch}}` where `version` is open"
    );
    assert_eq!(
        refused("{{verison}}"),
        format!("a release instruction names no variable `verison`; it may name {VARIABLES_LISTED}")
    );
    assert!(refused("{{#verison}}x{{/verison}}").contains("`verison`"));

    let long = "x".repeat(MAX_INSTRUCTION + 1);
    assert_eq!(
        refused(&long),
        format!(
            "a release instruction is at most {MAX_INSTRUCTION} bytes, and this one is {}",
            long.len()
        )
    );
    assert!(InstructionTemplate::try_from("x".repeat(MAX_INSTRUCTION)).is_ok());
    // Bytes are what is bounded, not characters.
    assert!(InstructionTemplate::try_from("é".repeat(501)).is_err());
}

#[test]
fn a_control_character_is_refused_as_it_is_written_in_source() {
    for (c, spelled) in [('\u{1b}', "'\\u{1b}'"), ('\t', "'\\t'"), ('\r', "'\\r'")] {
        let why = refused(&format!("a{c}b"));
        assert!(why.contains(spelled), "{why}");
        assert_eq!(format!("{c:?}"), spelled);
    }
    assert!(InstructionTemplate::try_from("a\nb".to_string()).is_ok());
}

#[test]
fn a_line_that_would_open_a_section_is_refused() {
    for line in ["## Requirements", "  # x", "===", "-----"] {
        assert!(opens_a_section(line), "{line}");
        let why = refused(&format!("fine\n{line}\n"));
        assert!(why.contains(&format!("{line:?}")), "{why}");
    }
    for line in ["--", "- a list", "a # b", "-=-", ""] {
        assert!(!opens_a_section(line), "{line}");
    }
}

#[test]
fn a_worker_is_told_each_instruction_once() {
    let told = instructions(&vec![
        row("1", "Take it."),
        row("", "{{version}}"),
        row("2", "Take it."),
        row("2", "Take {{version}}."),
    ]);
    assert_eq!(told, ["Take it.", "Take 2."]);
}

#[test]
fn an_arrival_reports_each_release_and_what_to_do_with_it() {
    assert_eq!(
        arrival_note(&vec![row("1.2.3", "Take {{version}}."), row("", "{{version}}")]),
        format!(
            "The releases this node was waiting on have arrived. {OBSERVED_STATE_FRAMING}\n\n\
             - github.com/org/dep — crates.io/dep 1.2.3\n\
             - github.com/org/dep — crates.io/dep\n\n\
             Take 1.2.3."
        )
    );
    let quiet = arrival_note(&vec![row("", "{{version}}")]);
    assert!(quiet.ends_with("- github.com/org/dep — crates.io/dep"), "{quiet}");
}
