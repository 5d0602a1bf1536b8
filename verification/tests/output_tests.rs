use slafling::cli::OutputFormat;
use slafling::config::{ConfigFile, DefaultConfig, EnvSnapshot};
use slafling::output::{
    format_table, format_tsv, resolve_output_format, resolve_output_format_headless,
};
use slafling::slack::ChannelInfo;

fn minimal_config() -> ConfigFile {
    ConfigFile {
        default: DefaultConfig {
            channel: Some("#general".to_string()),
            max_file_size: None,
            confirm: None,
            output: None,
            search_types: None,
            token_store: None,
        },
        profiles: Vec::new(),
    }
}

fn ch(name: &str, ty: &str, id: &str, user: Option<&str>) -> ChannelInfo {
    ChannelInfo {
        name: name.to_string(),
        channel_type: ty.to_string(),
        channel_id: id.to_string(),
        user_id: user.map(|s| s.to_string()),
    }
}

#[test]
fn output_format_cli_flag_wins() {
    let cfg = minimal_config();
    let mut env = EnvSnapshot::empty();
    env.output = Some("json".to_string());
    let f = resolve_output_format(Some(OutputFormat::Tsv), &cfg, None, &env, true);
    assert_eq!(f, OutputFormat::Tsv);
}

#[test]
fn output_format_env_beats_config() {
    let mut cfg = minimal_config();
    cfg.default.output = Some("table".to_string());
    let mut env = EnvSnapshot::empty();
    env.output = Some("json".to_string());
    assert_eq!(resolve_output_format(None, &cfg, None, &env, true), OutputFormat::Json);
}

#[test]
fn output_format_falls_back_to_terminal() {
    let cfg = minimal_config();
    let env = EnvSnapshot::empty();
    assert_eq!(resolve_output_format(None, &cfg, None, &env, true), OutputFormat::Table);
    assert_eq!(resolve_output_format(None, &cfg, None, &env, false), OutputFormat::Tsv);
}

#[test]
fn output_format_unrecognized_value_falls_back() {
    let mut cfg = minimal_config();
    cfg.default.output = Some("yaml".to_string());
    let env = EnvSnapshot::empty();
    assert_eq!(resolve_output_format(None, &cfg, None, &env, false), OutputFormat::Tsv);
}

#[test]
fn headless_output_format() {
    let mut env = EnvSnapshot::empty();
    env.output = Some("TSV".to_string());
    assert_eq!(resolve_output_format_headless(None, &env, true), OutputFormat::Tsv);
    assert_eq!(
        resolve_output_format_headless(Some(OutputFormat::Json), &env, true),
        OutputFormat::Json
    );
    assert_eq!(
        resolve_output_format_headless(None, &EnvSnapshot::empty(), false),
        OutputFormat::Tsv
    );
}

#[test]
fn table_without_user_ids() {
    let channels = vec![ch("general", "public", "C123", None), ch("dev", "private", "C4", None)];
    let table = format_table(&channels);
    let expected = "NAME     TYPE     CHANNEL_ID\n\
                    general  public   C123\n\
                    dev      private  C4\n";
    assert_eq!(table, expected);
}

#[test]
fn table_with_user_ids() {
    let channels = vec![ch("dm", "im", "D1", Some("U77"))];
    let table = format_table(&channels);
    let expected = "NAME  TYPE  CHANNEL_ID     USER_ID\n\
                    dm    im    D1             U77\n";
    assert_eq!(table, expected);
}

#[test]
fn tsv_rows() {
    let channels = vec![ch("general", "public", "C123", None), ch("dm", "im", "D1", Some("U77"))];
    let tsv = format_tsv(&channels);
    assert_eq!(tsv, "general\tpublic\tC123\t\ndm\tim\tD1\tU77\n");
}
