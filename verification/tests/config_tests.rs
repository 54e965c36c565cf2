//! Configuration values and the document codec.

use serialtui::config::{Color, ConfigError, DataBits, FlowControl, LineEnding, Parity, PortConfig};
use serialtui::tomlcfg::ConfigUtil;

#[test]
fn app_port_config_test_line_ending_parsing() {
    assert_eq!(LineEnding::try_from("lf".to_string()), Ok(LineEnding::LF));
    assert_eq!(LineEnding::try_from("cr".to_string()), Ok(LineEnding::CR));
    assert_eq!(LineEnding::try_from("crlf".to_string()), Ok(LineEnding::CRLF));
    assert!(LineEnding::try_from("invalid".to_string()).is_err());
}

#[test]
fn mod_test_line_ending_parsing() {
    assert_eq!(LineEnding::try_from("lf".to_string()), Ok(LineEnding::LF));
    assert_eq!(LineEnding::try_from("cr".to_string()), Ok(LineEnding::CR));
    assert_eq!(LineEnding::try_from("crlf".to_string()), Ok(LineEnding::CRLF));
    assert!(LineEnding::try_from("invalid".to_string()).is_err());
}

#[test]
fn test_save_port_config() {}

#[test]
fn test_load() {}

#[test]
fn test_line_ending_spellings_are_closed() {
    // Case is ignored, but only the three documented spellings exist.
    assert_eq!(LineEnding::try_from("CRLF".to_string()), Ok(LineEnding::CRLF));
    assert!(LineEnding::try_from("\n".to_string()).is_err());
    assert!(LineEnding::try_from("\r".to_string()).is_err());
    assert!(LineEnding::try_from("\r\n".to_string()).is_err());
}

#[test]
fn test_line_ending_bytes() {
    assert_eq!(LineEnding::LF.as_bytes(), vec![b'\n']);
    assert_eq!(LineEnding::CR.as_bytes(), vec![b'\r']);
    assert_eq!(LineEnding::CRLF.as_bytes(), vec![b'\r', b'\n']);
}

#[test]
fn test_color_hex_parsing() {
    assert_eq!(Color::from_str("#ff8000"), Ok(Color::Rgb(255, 128, 0)));
    assert_eq!(Color::from_str("#FF8000"), Ok(Color::Rgb(255, 128, 0)));
    assert!(Color::from_str("#fff").is_err());
    assert!(Color::from_str("#gggggg").is_err());
}

#[test]
fn test_color_names() {
    assert_eq!(Color::from_str("green"), Ok(Color::Green));
    assert_eq!(Color::from_str("GREEN"), Ok(Color::Green));
    assert_eq!(Color::from_str("gray"), Ok(Color::Gray));
    // The name set is closed: near-misses are load-time errors.
    assert_eq!(Color::from_str("grey"), Err(ConfigError::InvalidColor));
    assert_eq!(Color::from_str("bogus"), Err(ConfigError::InvalidColor));
}

#[test]
fn test_color_render() {
    assert_eq!(Color::Green.to_text(), "green");
    assert_eq!(Color::Rgb(1, 2, 3).to_text(), "#010203");
    assert_eq!(Color::Rgb(255, 128, 0).to_text(), "#FF8000");
}

#[test]
fn test_color_round_trip() {
    let colors = vec![
        Color::Reset,
        Color::Black,
        Color::Red,
        Color::Green,
        Color::Yellow,
        Color::Blue,
        Color::Magenta,
        Color::Cyan,
        Color::Gray,
        Color::White,
        Color::Rgb(1, 2, 3),
        Color::Rgb(255, 128, 0),
    ];
    for c in colors {
        assert_eq!(Color::from_str(c.to_text().as_str()), Ok(c));
    }
}

#[test]
fn test_data_bits_parsing() {
    assert_eq!(DataBits::try_from(5), Ok(DataBits::Five));
    assert_eq!(DataBits::try_from(8), Ok(DataBits::Eight));
    assert_eq!(DataBits::try_from(9), Err(ConfigError::InvalidDataBits));
}

#[test]
fn test_stop_bits_parsing() {
    assert_eq!(serialtui::config::StopBits::try_from(1), Ok(serialtui::config::StopBits::One));
    assert_eq!(serialtui::config::StopBits::try_from(2), Ok(serialtui::config::StopBits::Two));
    assert!(serialtui::config::StopBits::try_from(3).is_err());
}

#[test]
fn test_parity_parsing() {
    assert_eq!(Parity::try_from("none".to_string()), Ok(Parity::Disabled));
    assert_eq!(Parity::try_from("Odd".to_string()), Ok(Parity::Odd));
    assert_eq!(Parity::try_from("EVEN".to_string()), Ok(Parity::Even));
    assert_eq!(Parity::try_from("bogus".to_string()), Err(ConfigError::InvalidParity));
}

#[test]
fn test_flow_control_parsing() {
    assert_eq!(FlowControl::try_from("none".to_string()), Ok(FlowControl::Disabled));
    assert_eq!(FlowControl::try_from("software".to_string()), Ok(FlowControl::Software));
    assert_eq!(FlowControl::try_from("Hardware".to_string()), Ok(FlowControl::Hardware));
    assert!(FlowControl::try_from("bogus".to_string()).is_err());
}

#[test]
fn test_default() {
    let port_config = PortConfig::default();
    assert_eq!(
        port_config,
        PortConfig {
            path: String::new(),
            baud_rate: 115_200,
            line_ending: LineEnding::LF,
            color: Color::Reset,
        }
    );
}

#[test]
fn test_modify() {
    let mut port_config = PortConfig::default();
    port_config.baud_rate = 9600;
    port_config.line_ending = LineEnding::CRLF;
    assert_eq!(port_config.baud_rate, 9600);
    assert_eq!(port_config.line_ending, LineEnding::CRLF);
}

fn sample_ports() -> Vec<(String, PortConfig)> {
    vec![
        (
            "port1".to_string(),
            PortConfig {
                path: "/dev/ttyUSB0".to_string(),
                baud_rate: 115200,
                line_ending: LineEnding::CRLF,
                color: Color::Green,
            },
        ),
        (
            "port2".to_string(),
            PortConfig {
                path: "/dev/ttyUSB1".to_string(),
                baud_rate: 9600,
                line_ending: LineEnding::LF,
                color: Color::Rgb(255, 128, 0),
            },
        ),
    ]
}

#[test]
fn test_document_round_trip() {
    let ports = sample_ports();
    let text = ConfigUtil::serialize_toml(&ports).unwrap();
    let parsed = ConfigUtil::deserialize_toml(text.as_str()).unwrap();
    assert_eq!(parsed, ports);
}

#[test]
fn save_preserves_all_fields() {
    let full_port = PortConfig {
        path: "/dev/ttyACM0".to_string(),
        baud_rate: 9600,
        line_ending: LineEnding::LF,
        color: Color::Rgb(1, 2, 3),
    };
    let ports = vec![("full".to_string(), full_port)];
    let text = ConfigUtil::serialize_toml(&ports).unwrap();
    let loaded = ConfigUtil::deserialize_toml(text.as_str()).unwrap();
    assert_eq!(loaded, ports);
}

#[test]
fn test_serialize_refuses_uncarryable_entries() {
    // A newline inside a path cannot travel through a line-based document.
    let broken = vec![(
        "a".to_string(),
        PortConfig { path: "/dev/x\ny".to_string(), ..PortConfig::default() },
    )];
    assert_eq!(ConfigUtil::serialize_toml(&broken), Err(ConfigError::Unwritable));
    // An empty port name cannot open a table.
    let unnamed = vec![("".to_string(), PortConfig::default())];
    assert_eq!(ConfigUtil::serialize_toml(&unnamed), Err(ConfigError::Unwritable));
    // Two tables may not share a name.
    let doubled = vec![
        ("a".to_string(), PortConfig::default()),
        ("a".to_string(), PortConfig::default()),
    ];
    assert_eq!(ConfigUtil::serialize_toml(&doubled), Err(ConfigError::DuplicatePort));
}

#[test]
fn test_path_escapes_round_trip() {
    // Quotes and backslashes in a path travel escaped.
    let tricky = vec![(
        "a".to_string(),
        PortConfig { path: "C:\\COM \"ports\"\\3".to_string(), ..PortConfig::default() },
    )];
    let text = ConfigUtil::serialize_toml(&tricky).unwrap();
    assert!(text.contains("path = \"C:\\\\COM \\\"ports\\\"\\\\3\""));
    let loaded = ConfigUtil::deserialize_toml(text.as_str()).unwrap();
    assert_eq!(loaded, tricky);
}

#[test]
fn test_parse_resolves_escapes() {
    let text = "[a]\npath = \"x\\\"y\\\\z\"";
    let parsed = ConfigUtil::deserialize_toml(text).unwrap();
    assert_eq!(parsed[0].1.path, "x\"y\\z");
    // A bare quote inside the value, or a dangling escape, is a fault.
    assert_eq!(
        ConfigUtil::deserialize_toml("[a]\npath = \"x\"y\""),
        Err(ConfigError::Syntax)
    );
    assert_eq!(
        ConfigUtil::deserialize_toml("[a]\npath = \"x\\\""),
        Err(ConfigError::Syntax)
    );
}

#[test]
fn test_serialize_shape() {
    let ports = vec![(
        "a".to_string(),
        PortConfig {
            path: "/dev/ttyACM0".to_string(),
            baud_rate: 9600,
            line_ending: LineEnding::LF,
            color: Color::Red,
        },
    )];
    let text = ConfigUtil::serialize_toml(&ports).unwrap();
    assert_eq!(
        text,
        "[a]\npath = \"/dev/ttyACM0\"\nbaud_rate = 9600\nline_ending = \"lf\"\ncolor = \"red\""
    );
}

#[test]
fn test_parse_valid_document() {
    let text = "\n# ports\n[port1]\npath = \"/dev/ttyUSB0\"\nbaud_rate = 115200\nline_ending = \"crlf\"\ncolor = \"green\"\nunknown_field = 7\n\n[port2]\npath = \"/dev/ttyUSB1\"\n";
    let parsed = ConfigUtil::deserialize_toml(text).unwrap();
    assert_eq!(parsed.len(), 2);
    assert_eq!(parsed[0].0, "port1");
    assert_eq!(parsed[0].1.baud_rate, 115200);
    assert_eq!(parsed[0].1.line_ending, LineEnding::CRLF);
    assert_eq!(parsed[0].1.color, Color::Green);
    assert_eq!(parsed[1].0, "port2");
    // Missing fields take the documented defaults.
    assert_eq!(parsed[1].1.baud_rate, 115200);
    assert_eq!(parsed[1].1.line_ending, LineEnding::LF);
    assert_eq!(parsed[1].1.color, Color::Reset);
}

#[test]
fn test_parse_empty_document() {
    assert_eq!(ConfigUtil::deserialize_toml("").unwrap(), vec![]);
}

#[test]
fn test_parse_missing_path_fails() {
    let text = "[port1]\nbaud_rate = 9600";
    assert_eq!(ConfigUtil::deserialize_toml(text), Err(ConfigError::MissingPath));
}

#[test]
fn test_parse_invalid_baud_fails() {
    let text = "[port1]\npath = \"/dev/ttyUSB0\"\nbaud_rate = \"fast\"";
    assert_eq!(ConfigUtil::deserialize_toml(text), Err(ConfigError::InvalidNumber));
}

#[test]
fn test_parse_invalid_color_fails() {
    let text = "[port1]\npath = \"/dev/ttyUSB0\"\ncolor = \"invalid_color\"";
    assert_eq!(ConfigUtil::deserialize_toml(text), Err(ConfigError::InvalidColor));
}

#[test]
fn test_parse_invalid_line_ending_fails() {
    let text = "[port1]\npath = \"/dev/ttyUSB0\"\nline_ending = \"lfcr\"";
    assert_eq!(ConfigUtil::deserialize_toml(text), Err(ConfigError::InvalidLineEnding));
}

#[test]
fn test_parse_duplicate_port_fails() {
    let text = "[a]\npath = \"x\"\n[a]\npath = \"y\"";
    assert_eq!(ConfigUtil::deserialize_toml(text), Err(ConfigError::DuplicatePort));
}

#[test]
fn test_parse_stray_text_fails() {
    assert_eq!(ConfigUtil::deserialize_toml("what is this"), Err(ConfigError::Syntax));
    assert_eq!(
        ConfigUtil::deserialize_toml("key = \"before any table\""),
        Err(ConfigError::Syntax)
    );
}
