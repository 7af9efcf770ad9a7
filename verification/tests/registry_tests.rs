use mindmap::registry::normalize_label;
use mindmap::registry::LocalRecord;
use mindmap::render::Template;
use mindmap::MindMap;

fn tiny_template() -> Template {
    Template {
        page: String::from(
            "<html>127.0.0.1:8081|download/mindmap|locale: 'en'|<option value='mindmap' selected>mindmap</option>|mindmap.png|const style = ``;|const katex = ``;|MindElixir.new('root')|placeholder='mindmap label'></html>",
        ),
        style: String::from("S"),
        katex: String::from("K"),
        language: String::from("en"),
    }
}

fn record(uuid: &str, label: Option<&str>) -> LocalRecord {
    LocalRecord {
        uuid: String::from(uuid),
        json_path: format!("out/{}/{}.json", uuid, uuid),
        label: label.map(String::from),
    }
}

#[test]
fn update_then_download_carries_content() {
    let mut reg = MindMap::new(Vec::new());
    reg.update_loaded_mindmap(
        String::from("X"),
        String::from("{\"nodeData\":{\"id\":\"r\",\"topic\":\"hi\"}}"),
        None,
    );
    let tpl = tiny_template();
    let html = reg.html_content("X", &tpl).expect("X is loaded");
    assert!(html.contains("JSON.parse('{\"nodeData\":{\"id\":\"r\",\"topic\":\"hi\"}}')"));
    assert!(html.contains("<option value='X' selected>X</option>"));
    assert!(html.contains("X.png"));
    assert!(html.contains("const style = `S`;"));
    assert!(html.contains("const katex = `K`;"));
    // label absent: the placeholder is untouched
    assert!(html.contains("placeholder='mindmap label'>"));
}

#[test]
fn update_with_label_substitutes_placeholder() {
    let mut reg = MindMap::new(Vec::new());
    reg.update_loaded_mindmap(String::from("X"), String::from("{}"), Some(String::from("Foo")));
    let tpl = tiny_template();
    let html = reg.html_content("X", &tpl).expect("X is loaded");
    assert!(html.contains("placeholder='Foo'>"));
    assert!(!html.contains("placeholder='mindmap label'>"));
}

#[test]
fn html_content_absent_for_unknown_uuid() {
    let reg = MindMap::new(Vec::new());
    let tpl = tiny_template();
    assert!(reg.html_content("nope", &tpl).is_none());
}

#[test]
fn html_content_ignores_unmaterialized_local_entries() {
    // on disk but never loaded: no download document
    let reg = MindMap::new(vec![record("U", None)]);
    let tpl = tiny_template();
    assert!(reg.html_content("U", &tpl).is_none());
}

#[test]
fn empty_label_is_normalized_to_absent() {
    assert_eq!(normalize_label(Some(String::new())), None);
    assert_eq!(normalize_label(Some(String::from("x"))), Some(String::from("x")));
    assert_eq!(normalize_label(None), None);
}

#[test]
fn apply_update_treats_empty_label_as_absent() {
    let mut reg = MindMap::new(Vec::new());
    reg.apply_update(String::from("X"), String::from("{}"), Some(String::new()));
    let tpl = tiny_template();
    let html = reg.html_content("X", &tpl).expect("X is loaded");
    assert!(html.contains("placeholder='mindmap label'>"));
}

#[test]
fn pulldown_lists_every_id_once_with_selection() {
    let mut reg = MindMap::new(vec![record("A", Some("label a")), record("B", None)]);
    reg.update_loaded_mindmap(String::from("B"), String::from("{}"), Some(String::from("lb")));
    let options = reg.pulldown("B");
    assert_eq!(options.len(), 2);
    assert!(options.contains(&String::from("<option value='B' selected>B(lb)</option>")));
    assert!(options.contains(&String::from("<option value='A'>A(label a)</option>")));
}

#[test]
fn pulldown_appends_fresh_unknown_id_selected() {
    let reg = MindMap::new(vec![record("A", None)]);
    let options = reg.pulldown("NEW");
    assert_eq!(options.len(), 2);
    assert!(options.contains(&String::from("<option value='A'>A</option>")));
    assert!(options.contains(&String::from("<option value='NEW' selected>NEW</option>")));
}

#[test]
fn scan_without_label_file_yields_unlabelled_single_option() {
    let reg = MindMap::new(vec![record("U", None)]);
    let options = reg.pulldown("");
    // one option for U, plus the fresh blank id itself
    let for_u: Vec<&String> = options.iter().filter(|o| o.contains("value='U'")).collect();
    assert_eq!(for_u.len(), 1);
    assert_eq!(for_u[0], "<option value='U'>U</option>");
    assert_eq!(options.len(), 2);
}

#[test]
fn duplicate_scan_records_keep_the_first() {
    let reg = MindMap::new(vec![record("U", Some("first")), record("U", Some("second"))]);
    let options = reg.pulldown("");
    let for_u: Vec<&String> = options.iter().filter(|o| o.contains("value='U'")).collect();
    assert_eq!(for_u.len(), 1);
    assert_eq!(for_u[0], "<option value='U'>U(first)</option>");
}

#[test]
fn html_pulldown_joins_with_indentation() {
    let mut reg = MindMap::new(Vec::new());
    reg.update_loaded_mindmap(String::from("A"), String::from("{}"), None);
    let joined = reg.html_pulldown("A");
    assert_eq!(joined, "<option value='A' selected>A</option>");
    reg.update_loaded_mindmap(String::from("B"), String::from("{}"), None);
    let joined2 = reg.html_pulldown("A");
    assert_eq!(
        joined2,
        "<option value='A' selected>A</option>\n          <option value='B'>B</option>"
    );
}

#[test]
fn local_json_path_only_for_unloaded_disk_entries() {
    let mut reg = MindMap::new(vec![record("U", None)]);
    assert_eq!(reg.local_json_path("U"), Some(String::from("out/U/U.json")));
    assert_eq!(reg.local_json_path("V"), None);
    reg.update_loaded_mindmap(String::from("U"), String::from("{}"), None);
    assert_eq!(reg.local_json_path("U"), None);
}

#[test]
fn get_local_materializes_then_answers_from_memory() {
    let mut reg = MindMap::new(vec![record("U", Some("lbl"))]);
    // first lookup: the caller performed the read that local_json_path named
    let (first, _pd) = reg.get_local_mindmap("U", Some(String::from("{\"a\":1}")));
    assert_eq!(first, Some((String::from("{\"a\":1}"), Some(String::from("lbl")))));
    // second lookup needs no disk read and answers identically
    assert_eq!(reg.local_json_path("U"), None);
    let (second, _pd) = reg.get_local_mindmap("U", None);
    assert_eq!(second, Some((String::from("{\"a\":1}"), Some(String::from("lbl")))));
}

#[test]
fn get_local_on_read_failure_answers_nothing_and_keeps_state() {
    let mut reg = MindMap::new(vec![record("U", None)]);
    let (res, _pd) = reg.get_local_mindmap("U", None);
    assert_eq!(res, None);
    // the entry is still on disk only, so a later read is still asked for
    assert_eq!(reg.local_json_path("U"), Some(String::from("out/U/U.json")));
}

#[test]
fn get_local_unknown_id_answers_nothing() {
    let mut reg = MindMap::new(Vec::new());
    let (res, pd) = reg.get_local_mindmap("ZZZ", None);
    assert_eq!(res, None);
    assert_eq!(pd, "<option value='ZZZ' selected>ZZZ</option>");
}

#[test]
fn materialized_entries_are_clean_and_stay_out_of_the_save_plan() {
    let mut reg = MindMap::new(vec![record("U", None)]);
    let (res, _pd) = reg.get_local_mindmap("U", Some(String::from("{}")));
    assert!(res.is_some());
    let tpl = tiny_template();
    assert_eq!(reg.save_mindmap(&tpl).len(), 0);
}

#[test]
fn save_plan_holds_exactly_the_dirty_entries() {
    let mut reg = MindMap::new(vec![record("clean", None)]);
    let (_r, _pd) = reg.get_local_mindmap("clean", Some(String::from("{\"c\":0}")));
    reg.update_loaded_mindmap(String::from("X"), String::from("{\"x\":1}"), None);
    reg.update_loaded_mindmap(String::from("Y"), String::from("{}"), Some(String::from("Foo")));
    let tpl = tiny_template();
    let plan = reg.save_mindmap(&tpl);
    assert_eq!(plan.len(), 2);
    let x = plan.iter().find(|it| it.uuid == "X").expect("X is dirty");
    assert_eq!(x.json, "{\"x\":1}");
    assert_eq!(x.label, None);
    assert!(x.html.contains("JSON.parse('{\"x\":1}')"));
    let y = plan.iter().find(|it| it.uuid == "Y").expect("Y is dirty");
    assert_eq!(y.json, "{}");
    assert_eq!(y.label, Some(String::from("Foo")));
    assert!(plan.iter().all(|it| it.uuid != "clean"));
}

#[test]
fn save_then_restart_roundtrip() {
    let mut reg = MindMap::new(Vec::new());
    reg.update_loaded_mindmap(String::from("Y"), String::from("{}"), Some(String::from("Foo")));
    let tpl = tiny_template();
    let plan = reg.save_mindmap(&tpl);
    assert_eq!(plan.len(), 1);
    // a new process scans the directory that the plan's writes produced
    let records: Vec<LocalRecord> = plan
        .iter()
        .map(|it| LocalRecord {
            uuid: it.uuid.clone(),
            json_path: format!("out/{}/{}.json", it.uuid, it.uuid),
            label: it.label.clone(),
        })
        .collect();
    let mut fresh = MindMap::new(records);
    let (res, _pd) = fresh.get_local_mindmap("Y", Some(plan[0].json.clone()));
    assert_eq!(res, Some((String::from("{}"), Some(String::from("Foo")))));
}

#[test]
fn download_artifact_found_and_not_found() {
    let mut reg = MindMap::new(Vec::new());
    reg.update_loaded_mindmap(String::from("X"), String::from("{}"), None);
    let tpl = tiny_template();
    let (disp, body) = reg.download_artifact("X", &tpl);
    assert_eq!(disp, "attachment; filename=\"X.html\"");
    assert!(body.contains("JSON.parse('{}')"));
    let (disp2, body2) = reg.download_artifact("ZZZ", &tpl);
    assert_eq!(disp2, "attachment; filename=\"uuid_not_found.txt\"");
    assert_eq!(
        body2,
        "Unable to retrieve the relevant mindmap due to uuid ZZZ not found."
    );
}

#[test]
fn previous_page_renders_stored_content_and_label() {
    let mut reg = MindMap::new(vec![record("Y", Some("Foo"))]);
    let tpl = tiny_template();
    let page = reg.previous_page("Y", Some(String::from("{}")), &tpl, "127.0.0.1", 8081);
    assert!(page.contains("JSON.parse('{}')"));
    assert!(page.contains("placeholder='Foo'>"));
    assert!(page.contains("<option value='Y' selected>Y(Foo)</option>"));
}

#[test]
fn previous_page_unknown_id_renders_fresh_page_keyed_to_it() {
    let mut reg = MindMap::new(Vec::new());
    let tpl = tiny_template();
    let page = reg.previous_page("ZZZ", None, &tpl, "0.0.0.0", 9000);
    assert!(page.contains("MindElixir.new('root')"));
    assert!(page.contains("0.0.0.0:9000"));
    assert!(page.contains("download/ZZZ"));
    assert!(page.contains("<option value='ZZZ' selected>ZZZ</option>"));
}

#[test]
fn index_page_selects_a_fresh_id() {
    let reg = MindMap::new(Vec::new());
    let tpl = tiny_template();
    let (uuid, page) = reg.index_page(&tpl, "127.0.0.1", 8081);
    assert_eq!(uuid.len(), 36);
    assert!(page.contains(&format!("<option value='{}' selected>{}</option>", uuid, uuid)));
    assert!(page.contains(&format!("download/{}", uuid)));
    assert!(page.contains("127.0.0.1:8081"));
}

#[test]
fn update_overwrites_and_last_write_wins() {
    let mut reg = MindMap::new(Vec::new());
    reg.update_loaded_mindmap(String::from("X"), String::from("{\"v\":1}"), None);
    reg.update_loaded_mindmap(String::from("X"), String::from("{\"v\":2}"), Some(String::from("l")));
    let tpl = tiny_template();
    let html = reg.html_content("X", &tpl).expect("X is loaded");
    assert!(html.contains("JSON.parse('{\"v\":2}')"));
    assert!(!html.contains("JSON.parse('{\"v\":1}')"));
    let plan = reg.save_mindmap(&tpl);
    assert_eq!(plan.len(), 1);
    assert_eq!(plan[0].json, "{\"v\":2}");
}

#[test]
fn non_default_locale_is_substituted_in_download() {
    let mut reg = MindMap::new(Vec::new());
    reg.update_loaded_mindmap(String::from("X"), String::from("{}"), None);
    let tpl = Template {
        language: String::from("ja"),
        ..tiny_template()
    };
    let html = reg.html_content("X", &tpl).expect("X is loaded");
    assert!(html.contains("locale: 'ja'"));
    assert!(!html.contains("locale: 'en'"));
}
