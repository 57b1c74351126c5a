use zk::add::Config;
use zk::cardface::CardFace;
use zk::error::ZkError;
use zk::init::parse_arguments;
use zk::meta::{modified_cards, CardMeta, Timestamp};
use zk::schema::{all_features, missing_features, Feature};
use zk::tagcli::{tag_request, TagRequest};
use zk::varg::Args;

fn strings(v: &[&str]) -> Vec<String> {
    v.iter().map(|s| s.to_string()).collect()
}

fn meta(name: &str, sha: &str) -> CardMeta {
    CardMeta {
        face: CardFace::from_name(name).unwrap(),
        create_time: Timestamp {},
        modify_time: Timestamp {},
        content_sha256: sha.to_string(),
        commit_user: String::new(),
        commit_email: String::new(),
    }
}

#[test]
fn init_arguments() {
    let args = Args::from_vec(strings(&["init", "t.zk"]));
    let a = parse_arguments(&args).unwrap();
    assert_eq!(a.timeline_file_location, "t.zk");
    assert_eq!(a.cards_folder_location, ".");
    let args = Args::from_vec(strings(&["init", "t.zk", "cards"]));
    assert_eq!(parse_arguments(&args).unwrap().cards_folder_location, "cards");
    assert!(parse_arguments(&Args::from_vec(strings(&["init"]))).is_none());
    assert!(parse_arguments(&Args::from_vec(strings(&["init", "a", "b", "c"]))).is_none());
    assert!(parse_arguments(&Args::from_vec(strings(&["card", "a"]))).is_none());
}

#[test]
fn tag_arguments() {
    assert!(matches!(tag_request(&vec![]), Ok(TagRequest::Help)));
    assert!(matches!(tag_request(&strings(&["-l"])), Ok(TagRequest::ListAll)));
    match tag_request(&strings(&["--list", "101", "7a"])) {
        Ok(TagRequest::ListCards(v)) => assert_eq!(v, vec![101, 7]),
        _ => panic!("expected a card listing"),
    }
    assert_eq!(tag_request(&strings(&["--list", "x"])).err(), Some(ZkError::InvalidFormat));
    match tag_request(&strings(&["-d", "DCN1"])) {
        Ok(TagRequest::DeleteAll(t)) => assert_eq!(t, "DCN1"),
        _ => panic!("expected a whole-tag removal"),
    }
    match tag_request(&strings(&["-d", "DCN1", "101"])) {
        Ok(TagRequest::Delete(t, cs)) => {
            assert_eq!(t, "DCN1");
            assert_eq!(cs, strings(&["101"]));
        }
        _ => panic!("expected a removal"),
    }
    assert_eq!(tag_request(&strings(&["--delete"])).err(), Some(ZkError::InvalidFormat));
    match tag_request(&strings(&["-s", "1x", "ok"])) {
        Ok(TagRequest::Show(ts)) => assert_eq!(ts, strings(&["ok"])),
        _ => panic!("expected a query"),
    }
    assert_eq!(tag_request(&strings(&["-s"])).err(), Some(ZkError::InvalidFormat));
    match tag_request(&strings(&["DCN1", "15", "101"])) {
        Ok(TagRequest::SetOn(t, cs)) => {
            assert_eq!(t, "DCN1");
            assert_eq!(cs, strings(&["15", "101"]));
        }
        _ => panic!("expected a setting"),
    }
    assert!(matches!(tag_request(&strings(&["DCN1"])), Ok(TagRequest::Help)));
}

#[test]
fn schema_features() {
    assert_eq!(all_features(), vec![Feature::Setup1, Feature::Setup2, Feature::Tagging]);
    assert_eq!(missing_features(&vec![]), all_features());
    assert_eq!(missing_features(&strings(&["setup1", "feature"])), vec![Feature::Setup2, Feature::Tagging]);
    assert_eq!(missing_features(&strings(&["tag", "setup2", "setup1"])), vec![]);
    assert_eq!(Feature::Tagging.name(), "tag");
}

#[test]
fn add_command_line() {
    let args = strings(&["--timeline", "t.zk", "1", "2"]);
    let c = Config::from_args(&args).unwrap();
    assert_eq!(c.timeline, "t.zk");
    assert!(!c.add_all);
    assert_eq!(c.add_cards, Some(strings(&["t.zk", "1", "2"])));
    let c = Config::from_args(&strings(&["-t", "t.zk", "--all"])).unwrap();
    assert!(c.add_all);
    assert_eq!(c.add_cards, None);
    assert_eq!(Config::from_args(&strings(&["1", "-t"])).err(), Some(ZkError::NotFound));
    assert!(Config::_user_args_add_all(&strings(&["x", "--all"])));
    assert_eq!(Config::_user_args_timeline(&strings(&["a", "-t", "b"])), Some("b".to_string()));
}

#[test]
fn modified_cards_are_new_or_changed() {
    let open = vec![meta("1", "aa"), meta("2", "bb"), meta("3", "cc"), meta("1", "aa")];
    let timeline = vec![meta("1", "aa"), meta("2", "old")];
    let changed = modified_cards(&open, &timeline);
    let names: Vec<(String, String)> =
        changed.iter().map(|m| (m.face().name(), m.content_sha256.clone())).collect();
    assert_eq!(
        names,
        vec![("2".to_string(), "bb".to_string()), ("3".to_string(), "cc".to_string())]
    );
}

#[test]
fn timestamps_are_all_equal() {
    assert!(Timestamp {} == Timestamp {});
    assert_eq!(Timestamp {}.partial_cmp(&Timestamp {}), Some(std::cmp::Ordering::Equal));
}
