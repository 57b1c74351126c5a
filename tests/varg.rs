use zk::varg::{get_timeline, Args};

fn strings(v: &[&str]) -> Vec<String> {
    v.iter().map(|s| s.to_string()).collect()
}

#[test]
fn test_positive1() {
    let mut a1: Vec<String> = strings(&["--timeline", "./timeline.db"]);
    let mut a2: Vec<String> = strings(&["first", "--timeline", "./timeline.db"]);
    let mut a3: Vec<String> = strings(&["first", "--timeline", "./timeline.db", "second"]);

    let path = get_timeline(&mut a1);
    assert_eq!(a1.len(), 0);
    assert_eq!(path, Some("./timeline.db".to_string()));

    let path = get_timeline(&mut a2);
    assert_eq!(a2.len(), 1);
    assert_eq!(path, Some("./timeline.db".to_string()));

    let path = get_timeline(&mut a3);
    assert_eq!(a3.len(), 2);
    assert_eq!(path, Some("./timeline.db".to_string()));
    assert_eq!(a3, strings(&["first", "second"]));
}

#[test]
fn varg_test_negative() {
    let a1: Vec<String> = vec![];
    let a2: Vec<String> = strings(&["--timeline"]);
    let a3: Vec<String> = strings(&["./timeline.db"]);
    let a4: Vec<String> = strings(&["first", "--timeline"]);

    let mut alist = a1;
    let path = get_timeline(&mut alist);
    let len = alist.len();
    assert_eq!(path, None);
    assert_eq!(alist.len(), len);

    let mut alist = a2;
    let path = get_timeline(&mut alist);
    let len = alist.len();
    assert_eq!(path, None);
    assert_eq!(alist.len(), len);

    let mut alist = a3;
    let path = get_timeline(&mut alist);
    let len = alist.len();
    assert_eq!(path, None);
    assert_eq!(alist.len(), len);

    let mut alist = a4;
    let path = get_timeline(&mut alist);
    let len = alist.len();
    assert_eq!(path, None);
    assert_eq!(alist.len(), len);
}

#[test]
fn two_timeline_switches_are_refused() {
    let mut a = strings(&["-t", "a.db", "--timeline", "b.db"]);
    assert_eq!(get_timeline(&mut a), None);
    assert_eq!(a.len(), 4);
}

#[test]
fn test_argument_read() {
    let args = strings(&["-t", "./timeline.db", "init"]);
    let args = Args::from_vec(args);
    assert_eq!(args.subcommand, Some("init".to_string()));
    assert_eq!(args.timeline_file, Some("./timeline.db".to_string()));

    let args = strings(&["init", "-t", "./timeline.db"]);
    let args = Args::from_vec(args);
    assert_eq!(args.subcommand, Some("init".to_string()));
    assert_eq!(args.timeline_file, Some("./timeline.db".to_string()));

    let args = strings(&["-t", "./timeline.db"]);
    let args = Args::from_vec(args);
    assert_eq!(args.subcommand, None);
    assert_eq!(args.timeline_file, Some("./timeline.db".to_string()));
}

#[test]
fn test_no_timeline() {
    let args = strings(&["init"]);
    let args = Args::from_vec(args);
    assert_eq!(args.subcommand, Some("init".to_string()));
    assert_eq!(args.timeline_file, None);
}

#[test]
fn unknown_first_argument_is_no_subcommand() {
    let args = Args::from_vec(strings(&["-t", "x.db", "tag", "DCN1", "15"]));
    assert_eq!(args.subcommand, Some("tag".to_string()));
    assert_eq!(args.args, strings(&["DCN1", "15"]));
    let args = Args::from_vec(strings(&["frobnicate", "1"]));
    assert_eq!(args.subcommand, None);
    assert_eq!(args.args, strings(&["frobnicate", "1"]));
}
