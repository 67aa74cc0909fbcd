use miniargs::Arguments;

fn toks(xs: &[&str]) -> Vec<String> {
    xs.iter().map(|s| s.to_string()).collect()
}

#[test]
fn empty() {
    let args = Arguments::parse(&[]);
    assert!(args.is_empty());
    assert_eq!(args.len(), 0);
}

#[test]
fn no_arg() {
    let args = Arguments::parse(&toks(&["arg"]));
    assert!(args.is_empty());
    assert_eq!(args.len(), 0);
}

#[test]
fn one_empty() {
    let args = Arguments::parse(&toks(&["-key"]));
    assert!(!args.is_empty());
    assert_eq!(args.len(), 1);
    assert!(args.contains("key"));
    assert!(!args.contains_val("key"));
    assert!(args.get("key").is_some());
    assert_eq!(args.get_vec("key").unwrap().len(), 1);
}

#[test]
fn one_key() {
    let args = Arguments::parse(&toks(&["-key", "val"]));
    assert!(!args.is_empty());
    assert_eq!(args.len(), 1);
    assert!(args.contains("key"));
    assert!(args.contains_val("key"));
    assert!(args.get("key").is_some());
    assert_eq!(args.get("key").unwrap().unwrap(), "val");
    assert_eq!(args.get_vec("key").unwrap().len(), 1);
}

#[test]
fn one_key_repeated() {
    let args = Arguments::parse(&toks(&["-key", "val", "-key", "val2"]));
    assert!(!args.is_empty());
    assert_eq!(args.len(), 1);
    assert!(args.contains("key"));
    assert!(args.contains_val("key"));
    assert!(args.get("key").is_some());
    assert_eq!(args.get("key").unwrap().unwrap(), "val");
    assert_eq!(
        args.get_vec("key").unwrap(),
        &vec![Some("val".to_string()), Some("val2".to_string())]
    );
    assert_eq!(args.get_vec("key").unwrap().len(), 2);
}

#[test]
fn one_key_cut_short() {
    let args = Arguments::parse(&toks(&["-key", "-key", "val2"]));
    assert!(!args.is_empty());
    assert_eq!(args.len(), 1);
    assert!(args.contains("key"));
    assert!(args.contains_val("key"));
    assert!(args.get("key").is_some());
    assert_eq!(args.get("key").unwrap(), None);
    assert_eq!(
        args.get_vec("key").unwrap(),
        &vec![None, Some("val2".to_string())]
    );
    assert_eq!(args.get_vec("key").unwrap().len(), 2);
}

#[test]
fn two_keys() {
    let args = Arguments::parse(&toks(&["-key", "val", "-key2", "val2"]));
    assert!(!args.is_empty());
    assert_eq!(args.len(), 2);
    assert!(args.contains("key"));
    assert!(args.contains("key2"));
    assert!(args.contains_val("key"));
    assert!(args.contains_val("key2"));
    assert!(args.get("key").is_some());
    assert!(args.get("key2").is_some());
    assert_eq!(args.get("key").unwrap().unwrap(), "val");
    assert_eq!(args.get("key2").unwrap().unwrap(), "val2");
    assert_eq!(args.get_vec("key").unwrap().len(), 1);
    assert_eq!(args.get_vec("key2").unwrap().len(), 1);
}

#[test]
fn two_keys_cut_short() {
    let args = Arguments::parse(&toks(&["-key", "-key2", "val2"]));
    assert!(!args.is_empty());
    assert_eq!(args.len(), 2);
    assert!(args.contains("key"));
    assert!(args.contains("key2"));
    assert!(!args.contains_val("key"));
    assert!(args.contains_val("key2"));
    assert!(args.get("key").is_some());
    assert!(args.get("key2").is_some());
    assert_eq!(args.get("key").unwrap(), None);
    assert_eq!(args.get("key2").unwrap().unwrap(), "val2");
    assert_eq!(args.get_vec("key").unwrap().len(), 1);
    assert_eq!(args.get_vec("key2").unwrap().len(), 1);
}

#[test]
fn ergonomics() {
    let sys_args: Vec<String> = vec!["-key".into(), "val".into()];
    let args = Arguments::parse(&sys_args);
    assert!(!args.is_empty());
    assert_eq!(args.len(), 1);
    assert!(args.contains("key"));
    assert!(args.contains_val("key"));
    assert!(args.get("key").is_some());
    assert_eq!(args.get("key").unwrap().unwrap(), "val");
    assert_eq!(args.get_vec("key").unwrap().len(), 1);
}
