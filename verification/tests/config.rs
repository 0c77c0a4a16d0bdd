use observer::config::{parse_config, ConfigError, Key, Obs};
use observer::platform::Platform;

fn obs(trigger: &str, path: &str, name: &str, args: &str) -> Obs {
    Obs {
        trigger_process_name: trigger.to_string(),
        target_process_path: path.to_string(),
        target_process_name: name.to_string(),
        target_args: args.to_string(),
    }
}

#[test]
fn config_with_trigger_and_path_is_read() {
    let text = "trigger_process_name=notepad.exe\ntarget_process_path=\"C:\\Apps\\tool.exe\"\n";
    assert_eq!(
        parse_config(Platform::Windows, text),
        Ok(obs("notepad.exe", "C:\\Apps\\tool.exe", "tool.exe", ""))
    );
}

#[test]
fn target_name_comes_from_the_path_by_platform() {
    let text = "trigger_process_name=editor\ntarget_process_path=/opt/tools/helper\n";
    assert_eq!(
        parse_config(Platform::Unix, text),
        Ok(obs("editor", "/opt/tools/helper", "helper", ""))
    );
    let text = "trigger_process_name=editor\ntarget_process_path=C:\\Apps\\tool.exe";
    assert_eq!(
        parse_config(Platform::Unix, text),
        Ok(obs("editor", "C:\\Apps\\tool.exe", "C:\\Apps\\tool.exe", ""))
    );
}

#[test]
fn target_name_of_its_own_is_kept() {
    let text = "target_process_name = \"helperd\" \ntrigger_process_name=editor\ntarget_process_path=/opt/tools/helper\n";
    assert_eq!(
        parse_config(Platform::Unix, text),
        Ok(obs("editor", "/opt/tools/helper", "helperd", ""))
    );
}

#[test]
fn target_name_alone_names_the_target() {
    let text = "trigger_process_name=editor\ntarget_process_name=helperd\n";
    assert_eq!(parse_config(Platform::Unix, text), Ok(obs("editor", "", "helperd", "")));
}

#[test]
fn empty_target_name_falls_back_to_the_path() {
    let text = "trigger_process_name=editor\ntarget_process_path=/opt/helper\ntarget_process_name=\" \"\n";
    assert_eq!(parse_config(Platform::Unix, text), Ok(obs("editor", "/opt/helper", "helper", "")));
}

#[test]
fn path_that_names_no_file_gives_no_target_name() {
    let text = "trigger_process_name=editor\ntarget_process_path=/\n";
    assert_eq!(parse_config(Platform::Unix, text), Ok(obs("editor", "/", "", "")));
}

#[test]
fn arguments_are_kept_in_normal_form() {
    let text = "trigger_process_name=a\ntarget_process_path=/b/c\ntarget_args= \"--flag value\" \n";
    assert_eq!(parse_config(Platform::Unix, text), Ok(obs("a", "/b/c", "c", "--flag value")));
}

#[test]
fn values_are_trimmed_and_unquoted() {
    let text = "trigger_process_name =  \"notepad.exe\"  \r\ntarget_process_path=\t/b/c \r\n";
    assert_eq!(parse_config(Platform::Unix, text), Ok(obs("notepad.exe", "/b/c", "c", "")));
}

#[test]
fn last_line_for_a_key_holds() {
    let text = "trigger_process_name=first\ntarget_process_path=/x/y\ntrigger_process_name=second\n";
    assert_eq!(parse_config(Platform::Unix, text), Ok(obs("second", "/x/y", "y", "")));
    let text = "trigger_process_name=first\ntarget_process_path=/x/y\ntarget_process_path=\n";
    assert_eq!(parse_config(Platform::Unix, text), Err(ConfigError::MissingTarget));
}

#[test]
fn value_ends_at_the_next_equals_sign() {
    let text = "trigger_process_name=a\ntarget_process_path=/b/c\ntarget_args=--mode=fast\n";
    assert_eq!(parse_config(Platform::Unix, text), Ok(obs("a", "/b/c", "c", "--mode")));
}

#[test]
fn line_is_told_by_how_it_begins() {
    let text = "trigger_process_name_of_choice=a\ntarget_process_path=/b/c\n";
    assert_eq!(parse_config(Platform::Unix, text), Ok(obs("a", "/b/c", "c", "")));
}

#[test]
fn other_lines_are_passed_over() {
    let text = "# watch the editor\n\n trigger_process_name=indented\nname=value\ntrigger_process_name=a\ntarget_process_path=/b/c\nno equals sign here\n";
    assert_eq!(parse_config(Platform::Unix, text), Ok(obs("a", "/b/c", "c", "")));
}

#[test]
fn text_without_final_line_feed_is_read() {
    let text = "trigger_process_name=a\ntarget_process_path=/b/c";
    assert_eq!(parse_config(Platform::Unix, text), Ok(obs("a", "/b/c", "c", "")));
}

#[test]
fn empty_text_names_no_trigger() {
    assert_eq!(parse_config(Platform::Unix, ""), Err(ConfigError::MissingTrigger));
    assert_eq!(parse_config(Platform::Windows, "\n\n"), Err(ConfigError::MissingTrigger));
}

#[test]
fn trigger_empty_after_normalizing_is_rejected() {
    for trigger in ["", " ", "\"\"", " \" \" ", "\t\r"] {
        let text = format!("trigger_process_name={}\ntarget_process_path=/b/c\n", trigger);
        assert_eq!(parse_config(Platform::Unix, &text), Err(ConfigError::MissingTrigger));
    }
}

#[test]
fn target_empty_after_normalizing_is_rejected() {
    for target in ["", " ", "\"\"", " \" \" "] {
        let text = format!(
            "trigger_process_name=a\ntarget_process_path={}\ntarget_process_name={}\n",
            target, target
        );
        assert_eq!(parse_config(Platform::Unix, &text), Err(ConfigError::MissingTarget));
    }
    assert_eq!(
        parse_config(Platform::Unix, "trigger_process_name=a\n"),
        Err(ConfigError::MissingTarget)
    );
}

#[test]
fn missing_trigger_is_reported_before_missing_target() {
    assert_eq!(parse_config(Platform::Unix, "target_args=-v\n"), Err(ConfigError::MissingTrigger));
}

#[test]
fn key_without_equals_sign_is_malformed() {
    let text = "trigger_process_name=a\ntarget_args\ntarget_process_path=/b/c\n";
    assert_eq!(parse_config(Platform::Unix, text), Err(ConfigError::MalformedEntry { line: 2 }));
    assert_eq!(
        parse_config(Platform::Unix, "trigger_process_name"),
        Err(ConfigError::MalformedEntry { line: 1 })
    );
}

#[test]
fn first_malformed_line_is_the_one_reported() {
    let text = "\ntarget_process_path\ntrigger_process_name\n";
    assert_eq!(parse_config(Platform::Unix, text), Err(ConfigError::MalformedEntry { line: 2 }));
}

#[test]
fn malformed_line_is_reported_before_missing_values() {
    let text = "target_process_name\n";
    assert_eq!(parse_config(Platform::Unix, text), Err(ConfigError::MalformedEntry { line: 1 }));
}

#[test]
fn validity_asks_for_trigger_and_target() {
    assert!(obs("a", "/b/c", "c", "").is_valid());
    assert!(obs("a", "/b/c", "", "").is_valid());
    assert!(obs("a", "", "c", "").is_valid());
    assert!(!obs("a", "", "", "").is_valid());
    assert!(!obs("", "/b/c", "c", "").is_valid());
    assert!(!obs("", "", "", "-v").is_valid());
}

#[test]
fn default_configuration_is_empty_and_invalid() {
    let empty = Obs::default();
    assert_eq!(empty, obs("", "", "", ""));
    assert!(!empty.is_valid());
}

#[test]
fn whatever_is_read_is_valid() {
    let texts = [
        "trigger_process_name=a\ntarget_process_path=/b/c\n",
        "trigger_process_name=a\ntarget_process_name=c\n",
        "trigger_process_name=a\n",
        "target_process_path=/b/c\n",
        "",
    ];
    for text in texts {
        if let Ok(read) = parse_config(Platform::Unix, text) {
            assert!(read.is_valid());
        }
    }
}

#[test]
fn keys_are_spelled_as_in_the_text() {
    assert_eq!(Key::Trigger.name(), "trigger_process_name");
    assert_eq!(Key::TargetPath.name(), "target_process_path");
    assert_eq!(Key::TargetName.name(), "target_process_name");
    assert_eq!(Key::TargetArgs.name(), "target_args");
}
