use op_wofi::error::Error;
use op_wofi::item::{
    classify, field_lines, get_displayed_fields, get_field_table, select_field_to_copy,
    sort_fields_by_priority, Category, DisplayedField, Field, Item, PasswordDetails, Vault,
    FIELD_PROMPT,
};
use op_wofi::text::trim;

fn field(label: &str, value: Option<&str>, tag: &str) -> Field {
    Field {
        id: format!("id-{}", label),
        field_type: "STRING".to_string(),
        purpose: Some(tag.to_string()),
        label: label.to_string(),
        value: value.map(|v| v.to_string()),
        totp: None,
        reference: None,
        password_details: None,
    }
}

fn item(fields: Option<Vec<Field>>) -> Item {
    Item {
        id: "abc".to_string(),
        title: "Example".to_string(),
        version: 3,
        vault: Vault { id: "v".to_string(), name: "Private".to_string() },
        category: "LOGIN".to_string(),
        last_edited_by: "me".to_string(),
        created_at: "2024-01-01T00:00:00Z".to_string(),
        updated_at: "2024-01-02T00:00:00Z".to_string(),
        additional_information: None,
        urls: None,
        fields,
    }
}

fn shown(label: &str, value: &str, category: Category) -> DisplayedField {
    DisplayedField { label: label.to_string(), value: value.to_string(), category }
}

fn labels(fields: &Vec<DisplayedField>) -> Vec<String> {
    fields.iter().map(|f| f.label.clone()).collect()
}

#[test]
fn field_prompt_is_the_one_shown() {
    assert_eq!(FIELD_PROMPT, "📋 Copy field");
}

#[test]
fn category_comes_from_the_tag() {
    assert_eq!(Category::from_tag("password"), Category::Password);
    assert_eq!(Category::from_tag("PASSWORD"), Category::Password);
    assert_eq!(Category::from_tag("one-time-password"), Category::OneTimePassword);
    assert_eq!(Category::from_tag("OTP"), Category::OneTimePassword);
    assert_eq!(Category::from_tag("ONE_TIME_PASSWORD"), Category::OneTimePassword);
    assert_eq!(Category::from_tag("generic"), Category::Generic);
    assert_eq!(Category::from_tag("USERNAME"), Category::Generic);
    assert_eq!(Category::from_tag("CONCEALED"), Category::Generic);
    assert_eq!(Category::from_tag(""), Category::Generic);
    assert_eq!(Category::from_tag("Password"), Category::Generic);
}

#[test]
fn category_of_a_field_is_told_by_its_purpose_before_its_type() {
    let mut f = field("x", Some("v"), "PASSWORD");
    f.field_type = "CONCEALED".to_string();
    assert_eq!(f.category(), Category::Password);
    f.purpose = None;
    assert_eq!(f.category(), Category::Generic);
    f.field_type = "OTP".to_string();
    assert_eq!(f.category(), Category::OneTimePassword);
    f.purpose = Some("NOTES".to_string());
    assert_eq!(f.category(), Category::Generic);
}

#[test]
fn rank_puts_passwords_first() {
    assert_eq!(Category::Password.rank(), 0);
    assert_eq!(Category::OneTimePassword.rank(), 1);
    assert_eq!(Category::Generic.rank(), 2);
}

#[test]
fn display_masks_what_is_sensitive() {
    let secret = "p@ss".to_string();
    assert_eq!(Category::Password.display(&secret), "********");
    assert_eq!(Category::OneTimePassword.display(&secret), "******");
    assert_eq!(Category::Generic.display(&secret), "p@ss");
}

#[test]
fn password_mask_does_not_depend_on_the_value() {
    for value in ["", "a", "********", "a much longer pass phrase than the mask", "🔐"] {
        assert_eq!(Category::Password.display(&value.to_string()), "********");
        assert_eq!(Category::OneTimePassword.display(&value.to_string()), "******");
    }
}

#[test]
fn displayed_fields_drop_what_has_no_value() {
    let fields = vec![
        field("a", Some("1"), "generic"),
        field("b", None, "generic"),
        field("c", Some(""), "password"),
        field("d", None, "password"),
    ];
    let out = get_displayed_fields(fields);
    assert_eq!(
        out,
        vec![shown("a", "1", Category::Generic), shown("c", "", Category::Password)]
    );
}

#[test]
fn displayed_fields_take_the_one_time_code_before_the_value() {
    let mut otp = field("one-time password", Some("otpauth://totp/x?secret=ABC"), "generic");
    otp.purpose = None;
    otp.field_type = "OTP".to_string();
    otp.totp = Some("123456".to_string());
    let mut only_code = field("code", None, "generic");
    only_code.totp = Some("654321".to_string());
    let out = get_displayed_fields(vec![otp, only_code]);
    assert_eq!(
        out,
        vec![
            shown("one-time password", "123456", Category::OneTimePassword),
            shown("code", "654321", Category::Generic),
        ]
    );
}

#[test]
fn displayed_fields_of_nothing_are_nothing() {
    assert_eq!(get_displayed_fields(Vec::new()), Vec::new());
    assert_eq!(get_displayed_fields(vec![field("a", None, "password")]), Vec::new());
}

#[test]
fn classify_never_returns_a_field_without_value() {
    let fields = vec![
        field("n1", None, "password"),
        field("u", Some("alice"), "USERNAME"),
        field("n2", None, "OTP"),
        field("p", Some("p@ss"), "PASSWORD"),
        field("n3", None, "generic"),
    ];
    let out = classify(item(Some(fields))).unwrap();
    assert_eq!(labels(&out), vec!["p", "u"]);
    assert_eq!(out[0].value, "p@ss");
    assert_eq!(out[1].value, "alice");
}

#[test]
fn sort_is_by_priority_and_stable() {
    let mut fields = vec![
        shown("gen-a", "1", Category::Generic),
        shown("otp-a", "2", Category::OneTimePassword),
        shown("pw-a", "3", Category::Password),
        shown("gen-b", "4", Category::Generic),
        shown("pw-b", "5", Category::Password),
        shown("otp-b", "6", Category::OneTimePassword),
        shown("gen-c", "7", Category::Generic),
    ];
    sort_fields_by_priority(&mut fields);
    assert_eq!(labels(&fields), vec!["pw-a", "pw-b", "otp-a", "otp-b", "gen-a", "gen-b", "gen-c"]);
    assert_eq!(fields[0].value, "3");
    assert_eq!(fields[6].value, "7");
}

#[test]
fn sort_agrees_with_the_stable_sort_of_std() {
    let cats = [Category::Generic, Category::Password, Category::OneTimePassword];
    let mut fields = Vec::new();
    let mut expected = Vec::new();
    let mut seed: usize = 12345;
    let mut i: usize = 0;
    while i < 200 {
        seed = seed.wrapping_mul(1103515245).wrapping_add(12345) % 2147483648;
        let c = cats[(seed / 65536) % 3];
        fields.push(shown(&format!("f{}", i), &format!("v{}", i), c));
        expected.push(shown(&format!("f{}", i), &format!("v{}", i), c));
        i += 1;
    }
    expected.sort_by_key(|f| f.category.rank());
    sort_fields_by_priority(&mut fields);
    assert_eq!(fields, expected);
}

#[test]
fn sort_leaves_sorted_and_empty_lists_alone() {
    let mut none: Vec<DisplayedField> = Vec::new();
    sort_fields_by_priority(&mut none);
    assert_eq!(none, Vec::new());
    let mut one = vec![shown("g", "1", Category::Generic)];
    sort_fields_by_priority(&mut one);
    assert_eq!(one, vec![shown("g", "1", Category::Generic)]);
}

#[test]
fn field_table_shows_label_and_value_or_mask() {
    let fields = vec![
        shown("password", "p@ss", Category::Password),
        shown("one-time password", "123456", Category::OneTimePassword),
        shown("note", "hi", Category::Generic),
    ];
    let rows = get_field_table(&fields).unwrap();
    assert_eq!(
        rows,
        vec![
            ["password".to_string(), "********".to_string()],
            ["one-time password".to_string(), "******".to_string()],
            ["note".to_string(), "hi".to_string()],
        ]
    );
}

#[test]
fn field_table_of_no_fields_fails() {
    assert_eq!(get_field_table(&Vec::new()), Err(Error::NoDisplayableFields));
}

#[test]
fn classify_without_a_field_list_fails() {
    assert_eq!(classify(item(None)), Err(Error::NoFieldsPresent));
}

#[test]
fn classify_of_fields_without_values_fails() {
    assert_eq!(classify(item(Some(Vec::new()))), Err(Error::NoDisplayableFields));
    let fields = vec![field("a", None, "password"), field("b", None, "generic")];
    assert_eq!(classify(item(Some(fields))), Err(Error::NoDisplayableFields));
}

#[test]
fn field_lines_of_no_fields_fail() {
    assert_eq!(field_lines(&Vec::new()), Err(Error::NoDisplayableFields));
}

#[test]
fn end_to_end_password_is_masked_first_and_copied_in_clear() {
    let fields = vec![
        field("password", Some("p@ss"), "password"),
        field("note", Some("hi"), "generic"),
    ];
    let shown = classify(item(Some(fields))).unwrap();
    assert_eq!(labels(&shown), vec!["password", "note"]);
    let lines = field_lines(&shown).unwrap();
    assert_eq!(lines, vec!["0 | password | ********", "1 | note     | hi      "]);
    let picked = Ok(trim(&format!("{}\n", lines[0])));
    assert_eq!(select_field_to_copy(shown, &picked), Ok("p@ss".to_string()));
}

#[test]
fn end_to_end_password_sorts_first_wherever_it_stood() {
    let fields = vec![
        field("note", Some("hi"), "generic"),
        field("password", Some("p@ss"), "password"),
    ];
    let shown = classify(item(Some(fields))).unwrap();
    let lines = field_lines(&shown).unwrap();
    assert_eq!(lines[0], "0 | password | ********");
    assert_eq!(select_field_to_copy(shown, &Ok(lines[1].clone())), Ok("hi".to_string()));
}

#[test]
fn end_to_end_no_field_with_a_value_fails_before_any_menu() {
    let fields = vec![field("password", None, "password"), field("note", None, "generic")];
    let outcome = classify(item(Some(fields)));
    assert_eq!(outcome, Err(Error::NoDisplayableFields));
    assert_eq!(field_lines(&Vec::new()), Err(Error::NoDisplayableFields));
    assert_eq!(
        select_field_to_copy(Vec::new(), &Ok("0 | password | ********".to_string())),
        Err(Error::NoDisplayableFields)
    );
}

#[test]
fn every_line_of_the_field_menu_gives_back_its_true_value() {
    let mut fields = Vec::new();
    let tags = ["generic", "PASSWORD", "OTP", "USERNAME"];
    let mut i: usize = 0;
    while i < 23 {
        fields.push(field(&format!("l{} | x", i), Some(&format!("value {}", i)), tags[i % 4]));
        i += 1;
    }
    let shown = classify(item(Some(fields))).unwrap();
    let lines = field_lines(&shown).unwrap();
    assert_eq!(lines.len(), 23);
    for (k, line) in lines.iter().enumerate() {
        let again: Vec<DisplayedField> = shown.iter().map(|f| f.clone()).collect();
        let expected = shown[k].value.clone();
        assert_eq!(select_field_to_copy(again, &Ok(trim(line))), Ok(expected));
        if shown[k].category != Category::Generic {
            assert!(!line.contains("value"));
        }
    }
}

#[test]
fn select_field_hands_on_failures() {
    let fields = || vec![shown("a", "1", Category::Generic), shown("b", "2", Category::Generic)];
    assert_eq!(select_field_to_copy(fields(), &Err(Error::NoSelectionMade)), Err(Error::NoSelectionMade));
    assert_eq!(
        select_field_to_copy(fields(), &Err(Error::PickerNonZeroExit)),
        Err(Error::PickerNonZeroExit)
    );
    assert_eq!(
        select_field_to_copy(fields(), &Ok("2 | c | 3".to_string())),
        Err(Error::IndexOutOfRange)
    );
    assert_eq!(
        select_field_to_copy(fields(), &Ok("b | 2".to_string())),
        Err(Error::MalformedSelection)
    );
    assert_eq!(select_field_to_copy(fields(), &Ok("1 | b | 2".to_string())), Ok("2".to_string()));
}

#[test]
fn records_keep_what_the_vault_manager_reports() {
    let details = PasswordDetails { strength: Some("FANTASTIC".to_string()) };
    let mut f = field("password", Some("x"), "PASSWORD");
    f.password_details = Some(details.clone());
    assert_eq!(f.password_details, Some(details));
    let it = item(Some(vec![f]));
    assert_eq!(it.vault.name, "Private");
    assert_eq!(it.version, 3);
}

#[test]
fn sort_leaves_a_list_in_menu_order_as_it_is_and_sorting_twice_changes_nothing() {
    let in_order = || {
        vec![
            shown("pw-a", "1", Category::Password),
            shown("pw-b", "2", Category::Password),
            shown("otp-a", "3", Category::OneTimePassword),
            shown("gen-a", "4", Category::Generic),
            shown("gen-b", "5", Category::Generic),
        ]
    };
    let mut fields = in_order();
    sort_fields_by_priority(&mut fields);
    assert_eq!(fields, in_order());
    let mut mixed = vec![
        shown("gen-a", "1", Category::Generic),
        shown("pw-a", "2", Category::Password),
        shown("otp-a", "3", Category::OneTimePassword),
        shown("pw-b", "4", Category::Password),
    ];
    sort_fields_by_priority(&mut mixed);
    let once: Vec<DisplayedField> = mixed.iter().map(|f| f.clone()).collect();
    sort_fields_by_priority(&mut mixed);
    assert_eq!(mixed, once);
}
