use toolbox::pig_latin::to_pig_latin;
use toolbox::roster::Company;
use toolbox::stats::mode;

#[test]
fn test_mode() {
    let values = Vec::new();
    assert_eq!(mode(&values), None);

    let values = vec![1];
    assert_eq!(mode(&values), Some(1));

    let values = vec![1, 1];
    assert_eq!(mode(&values), Some(1));

    let values = vec![1, 2, 1];
    assert_eq!(mode(&values), Some(1));
    assert_eq!(mode(&values), Some(1));

    let values = vec![1, 1, 2, 2];
    let result = mode(&values);
    assert!(result == Some(1) || result == Some(2));
}

#[test]
fn test_to_pig_latin() {
    assert_eq!(to_pig_latin(""), "");
    assert_eq!(to_pig_latin("first"), "irst-fay");
    assert_eq!(to_pig_latin("apple"), "apple-hay");

    assert_eq!(
        to_pig_latin("the quick brown fox"),
        "he-tay uick-qay rown-bay ox-fay"
    );
    assert_eq!(
        to_pig_latin("I think therefore I am"),
        "I-hay hink-tay herefore-tay I-hay am-hay"
    );
    assert_eq!(to_pig_latin("Test  two spaces"), "est-Tay wo-tay paces-say");
}

#[test]
fn test_add_employee() {
    let mut company = Company::new();
    company.add_employee("Engineering", "Sally");
    company.add_employee("Engineering", "Alice");
    company.add_employee("Sales", "Amir");
    company.add_employee("Sales", "Bob");
    assert_eq!(
        company.employees_in_department("Engineering"),
        vec!["Alice", "Sally"]
    );
    assert_eq!(
        company.employees_in_department("Sales"),
        vec!["Amir", "Bob"]
    );
    assert_eq!(
        company.employees_in_company(),
        vec!["Alice", "Amir", "Bob", "Sally"]
    );
}

#[test]
fn test_parse_command() {
    let mut company = Company::new();
    assert!(company.parse_command("Add Sally to Engineering"));
    assert_eq!(
        company.employees_in_department("Engineering"),
        vec!["Sally"]
    );

    assert!(company.parse_command("Add Amir to Sales"));
    assert_eq!(company.employees_in_department("Sales"), vec!["Amir"]);

    assert!(company.parse_command("List Engineering"));
    assert!(company.parse_command("ListAll"));
    assert!(!company.parse_command("List"));
    assert!(!company.parse_command("Add"));
}

#[test]
fn unknown_department_is_empty() {
    let company = Company::new();
    let none: Vec<String> = Vec::new();
    assert_eq!(company.employees_in_department("Shipping"), none);
    assert_eq!(company.employees_in_company(), none);
}

#[test]
fn malformed_add_changes_nothing() {
    let mut company = Company::new();
    assert!(!company.parse_command("Add Sally at Engineering"));
    assert!(!company.parse_command("Add Sally to"));
    assert!(!company.parse_command(""));
    assert!(!company.parse_command("Remove Sally from Engineering"));
    let none: Vec<String> = Vec::new();
    assert_eq!(company.employees_in_company(), none);
}
