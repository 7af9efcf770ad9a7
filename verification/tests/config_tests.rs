use mindmap::config::get_addr;
use mindmap::config::parse_para;
use mindmap::config::Config;
use mindmap::config::Paras;
use mindmap::MyError;

fn no_cli() -> Paras {
    Paras { addr: None, port: None, language: None, outpath: None }
}

fn full_config() -> Config {
    Config {
        addr: String::from("10.0.0.2"),
        port: 9000,
        language: String::from("ja"),
        outpath: String::from("/tmp/maps"),
    }
}

#[test]
fn get_addr_parses_dotted_quads() {
    assert_eq!(get_addr("127.0.0.1").unwrap(), [127, 0, 0, 1]);
    assert_eq!(get_addr("0.0.0.0").unwrap(), [0, 0, 0, 0]);
    assert_eq!(get_addr("255.255.255.255").unwrap(), [255, 255, 255, 255]);
}

#[test]
fn get_addr_rejects_wrong_shape() {
    let err = get_addr("1.2.3").unwrap_err();
    assert_eq!(
        err.message(),
        "Error - -a ip address must be x.x.x.x format, not 1.2.3"
    );
    assert!(get_addr("1.2.3.4.5").is_err());
    assert!(get_addr("").is_err());
    assert!(get_addr("localhost").is_err());
}

#[test]
fn get_addr_rejects_bad_octet_naming_it() {
    match get_addr("1.2.300.4").unwrap_err() {
        MyError::ParseStringError { from, to, error: _ } => {
            assert_eq!(from, "300");
            assert_eq!(to, "u8");
        },
        other => panic!("unexpected error: {}", other.message()),
    }
    assert!(get_addr("1.2.x.4").is_err());
    assert!(get_addr("1..2.3").is_err());
}

#[test]
fn defaults_apply_without_flags_or_config() {
    let p = parse_para(no_cli(), None).unwrap();
    assert_eq!(p.addr, [127, 0, 0, 1]);
    assert_eq!(p.addr_str, "127.0.0.1");
    assert_eq!(p.port, 8081);
    assert_eq!(p.language, "en");
    assert_eq!(p.outpath, "./mindmap");
}

#[test]
fn config_file_fills_unset_flags() {
    let p = parse_para(no_cli(), Some(full_config())).unwrap();
    assert_eq!(p.addr, [10, 0, 0, 2]);
    assert_eq!(p.addr_str, "10.0.0.2");
    assert_eq!(p.port, 9000);
    assert_eq!(p.language, "ja");
    assert_eq!(p.outpath, "/tmp/maps");
}

#[test]
fn explicit_flags_override_config() {
    let cli = Paras {
        addr: Some(String::from("192.168.1.9")),
        port: Some(8082),
        language: Some(String::from("ru")),
        outpath: Some(String::from("./elsewhere")),
    };
    let p = parse_para(cli, Some(full_config())).unwrap();
    assert_eq!(p.addr, [192, 168, 1, 9]);
    assert_eq!(p.addr_str, "192.168.1.9");
    assert_eq!(p.port, 8082);
    assert_eq!(p.language, "ru");
    assert_eq!(p.outpath, "./elsewhere");
}

#[test]
fn unsupported_language_is_fatal_with_message() {
    let cli = Paras {
        addr: None,
        port: None,
        language: Some(String::from("fr")),
        outpath: None,
    };
    let err = parse_para(cli, None).unwrap_err();
    assert_eq!(
        err.message(),
        "Error - -l only support zh_CN, zh_TW, en, ja, pt, ru, not fr"
    );
}

#[test]
fn bad_address_is_reported_before_bad_language() {
    let cli = Paras {
        addr: Some(String::from("nonsense")),
        port: None,
        language: Some(String::from("fr")),
        outpath: None,
    };
    let err = parse_para(cli, None).unwrap_err();
    assert_eq!(
        err.message(),
        "Error - -a ip address must be x.x.x.x format, not nonsense"
    );
}

#[test]
fn every_supported_language_is_accepted() {
    for lang in ["zh_CN", "zh_TW", "en", "ja", "pt", "ru"] {
        let cli = Paras {
            addr: None,
            port: None,
            language: Some(String::from(lang)),
            outpath: None,
        };
        let p = parse_para(cli, None).unwrap();
        assert_eq!(p.language, lang);
    }
}

#[test]
fn error_messages_render_each_variant() {
    let e = MyError::FileNotExistError { file: String::from("cfg.txt") };
    assert_eq!(e.message(), "Error - cfg.txt does not exist");
    let e = MyError::CreateDirAllError {
        dir_name: String::from("./out"),
        error: String::from("denied"),
    };
    assert_eq!(e.message(), "Error - fs::create_dir_all ./out: denied");
    let e = MyError::ParseStringError {
        from: String::from("300"),
        to: String::from("u8"),
        error: String::from("out of range"),
    };
    assert_eq!(e.message(), "Error - parse 300 -> u8: out of range");
    let e = MyError::ParaError { para: String::from("bad") };
    assert_eq!(e.message(), "Error - bad");
    let e = MyError::IoError { error: String::from("broken pipe") };
    assert_eq!(e.message(), "I/O error occurred");
}
