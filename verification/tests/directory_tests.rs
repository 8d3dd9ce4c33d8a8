use employee_directory::command::{parse, Command};
use employee_directory::directory::Directory;
use employee_directory::executor::{execute, run_session, Response};

fn add_emp(dir: &mut Directory, employee: &str, department: &str) {
    dir.add(employee.to_string(), department.to_string());
}

#[test]
fn unknown_input_is_unknown_and_harmless() {
    assert!(matches!(parse("frobnicate the database"), Command::Unknown));
    assert!(matches!(parse(""), Command::Unknown));
    assert!(matches!(parse("   "), Command::Unknown));

    let mut dir = Directory::new();
    add_emp(&mut dir, "Alice", "Eng");
    let r = execute(Command::Unknown, &mut dir);
    assert!(matches!(r, Response::Unknown));
    let emps = dir.retrieve("Eng").expect("department must still be there");
    assert_eq!(emps, vec!["Alice".to_string()]);
}

#[test]
fn add_accumulates_sorted_on_read() {
    let mut dir = Directory::new();
    add_emp(&mut dir, "Alice", "Eng");
    add_emp(&mut dir, "Bob", "Eng");
    assert_eq!(
        dir.retrieve("Eng").unwrap(),
        vec!["Alice".to_string(), "Bob".to_string()]
    );

    let mut dir = Directory::new();
    add_emp(&mut dir, "Zoe", "Eng");
    add_emp(&mut dir, "Amy", "Eng");
    assert_eq!(
        dir.retrieve("Eng").unwrap(),
        vec!["Amy".to_string(), "Zoe".to_string()]
    );
}

#[test]
fn unknown_department_is_not_found() {
    let dir = Directory::new();
    assert!(dir.retrieve("Nonexistent").is_none());

    let mut dir = Directory::new();
    add_emp(&mut dir, "Alice", "Eng");
    assert!(dir.retrieve("Nonexistent").is_none());
    let r = execute(Command::Retrieve("Nonexistent".to_string()), &mut dir);
    match r {
        Response::NotFound { name } => assert_eq!(name, "Nonexistent"),
        _ => panic!("expected the not-found response"),
    }
    assert_eq!(dir.retrieve("Eng").unwrap(), vec!["Alice".to_string()]);
}

#[test]
fn retrieve_all_is_sorted_by_department() {
    let mut dir = Directory::new();
    add_emp(&mut dir, "Olga", "Ops");
    add_emp(&mut dir, "Alice", "Eng");
    add_emp(&mut dir, "Zoe", "Eng");
    add_emp(&mut dir, "Hugo", "HR");
    let all = dir.retrieve_all();
    let names: Vec<&str> = all.iter().map(|(d, _)| d.as_str()).collect();
    assert_eq!(names, vec!["Eng", "HR", "Ops"]);
    assert_eq!(all[0].1, vec!["Alice".to_string(), "Zoe".to_string()]);
    assert_eq!(all[1].1, vec!["Hugo".to_string()]);
    assert_eq!(all[2].1, vec!["Olga".to_string()]);
}

#[test]
fn grammar_arity_is_strict() {
    assert!(matches!(parse("add Alice to"), Command::Unknown));
    assert!(matches!(parse("add Alice to Eng extra"), Command::Unknown));
    assert!(matches!(parse("retrieve"), Command::Unknown));
    assert!(matches!(parse("retrieve all"), Command::RetrieveAll));
    match parse("retrieve Eng") {
        Command::Retrieve(d) => assert_eq!(d, "Eng"),
        _ => panic!("expected a retrieve command"),
    }
    match parse("  add   Alice   to   Eng  ") {
        Command::Add(e, d) => {
            assert_eq!(e, "Alice");
            assert_eq!(d, "Eng");
        }
        _ => panic!("expected an add command"),
    }
    assert!(matches!(parse("quit"), Command::Quit));
    assert!(matches!(parse("quit now"), Command::Unknown));
    assert!(matches!(parse("retrieve all extra"), Command::Unknown));
    assert!(matches!(parse("Add Alice to Eng"), Command::Unknown));
}

#[test]
fn quit_stops_the_session() {
    let lines: Vec<String> = vec![
        "add Alice to Eng".to_string(),
        "quit".to_string(),
        "add Mallory to Eng".to_string(),
        "retrieve Eng".to_string(),
    ];
    let mut dir = Directory::new();
    let responses = run_session(&lines, &mut dir);
    assert_eq!(responses.len(), 2);
    assert!(matches!(responses[0], Response::Added));
    assert!(matches!(responses[1], Response::Terminate));
    assert_eq!(dir.retrieve("Eng").unwrap(), vec!["Alice".to_string()]);
}

#[test]
fn session_without_quit_processes_every_line() {
    let lines: Vec<String> = vec![
        "add Bob to Ops".to_string(),
        "nonsense".to_string(),
        "retrieve Ops".to_string(),
        "retrieve all".to_string(),
    ];
    let mut dir = Directory::new();
    let responses = run_session(&lines, &mut dir);
    assert_eq!(responses.len(), 4);
    assert!(matches!(responses[0], Response::Added));
    assert!(matches!(responses[1], Response::Unknown));
    match &responses[2] {
        Response::Department { name, employees } => {
            assert_eq!(name, "Ops");
            assert_eq!(employees, &vec!["Bob".to_string()]);
        }
        _ => panic!("expected a department listing"),
    }
    match &responses[3] {
        Response::AllDepartments { departments } => {
            assert_eq!(departments.len(), 1);
            assert_eq!(departments[0].0, "Ops");
        }
        _ => panic!("expected the full listing"),
    }
}

#[test]
fn duplicate_employees_are_preserved() {
    let mut dir = Directory::new();
    add_emp(&mut dir, "Alice", "Eng");
    add_emp(&mut dir, "Alice", "Eng");
    assert_eq!(
        dir.retrieve("Eng").unwrap(),
        vec!["Alice".to_string(), "Alice".to_string()]
    );
}

#[test]
fn execute_add_then_retrieve() {
    let mut dir = Directory::new();
    let r = execute(parse("add Zoe to Eng"), &mut dir);
    assert!(matches!(r, Response::Added));
    let r = execute(parse("add Amy to Eng"), &mut dir);
    assert!(matches!(r, Response::Added));
    let r = execute(parse("retrieve Eng"), &mut dir);
    match r {
        Response::Department { name, employees } => {
            assert_eq!(name, "Eng");
            assert_eq!(employees, vec!["Amy".to_string(), "Zoe".to_string()]);
        }
        _ => panic!("expected a department listing"),
    }
    let r = execute(parse("quit"), &mut dir);
    assert!(matches!(r, Response::Terminate));
}
