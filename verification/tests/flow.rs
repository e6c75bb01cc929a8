use op_wofi::error::Error;
use op_wofi::item_description::{
    check_item_listing, item_lines, item_rows, select_item_description, ItemDescription, Url,
    Vault, ITEM_PROMPT, ITEM_TITLE,
};
use op_wofi::picker::{
    conclude, picker_input, start, step, PickerAction, PickerEvent, PickerState,
};
use op_wofi::session::{accept_session, find_session, get_op_session_from_systemd};
use op_wofi::text::trim;

fn description(id: &str, title: &str, info: Option<&str>, urls: Option<Vec<&str>>) -> ItemDescription {
    ItemDescription {
        id: id.to_string(),
        title: title.to_string(),
        version: 1,
        vault: Vault { id: "v".to_string(), name: "Private".to_string() },
        category: "LOGIN".to_string(),
        last_edited_by: "me".to_string(),
        created_at: "2024-01-01T00:00:00Z".to_string(),
        updated_at: "2024-01-02T00:00:00Z".to_string(),
        additional_information: info.map(|s| s.to_string()),
        urls: urls.map(|list| {
            list.iter().map(|u| Url { primary: Some(false), href: u.to_string() }).collect()
        }),
    }
}

fn sample_items() -> Vec<ItemDescription> {
    vec![
        description("1", "GitHub", Some("alice"), Some(vec!["https://github.com", "https://gist.github.com"])),
        description("2", "Mail", Some("bob"), None),
        description("3", "Bank", None, Some(vec![])),
        description("4", "a ::index:0", None, Some(vec!["x  |  y"])),
    ]
}

fn exited(success: bool, output: &str) -> PickerEvent {
    PickerEvent::Exited { success, output: output.to_string() }
}

fn run(events: Vec<PickerEvent>) -> (Vec<PickerState>, Option<Result<String, Error>>) {
    let (mut state, mut action) = start();
    let mut states = vec![state];
    for event in events {
        if let PickerAction::Finish(_) = action {
            break;
        }
        let next = step(state, event);
        state = next.0;
        action = next.1;
        states.push(state);
    }
    match action {
        PickerAction::Finish(result) => (states, Some(result)),
        _ => (states, None),
    }
}

#[test]
fn item_menu_texts_are_the_ones_shown() {
    assert_eq!(ITEM_TITLE, "🔐 1Password");
    assert_eq!(ITEM_PROMPT, "Select login");
}

#[test]
fn item_rows_show_title_information_and_first_address() {
    let rows = item_rows(&sample_items());
    assert_eq!(
        rows,
        vec![
            ["GitHub".to_string(), "alice".to_string(), "https://github.com".to_string()],
            ["Mail".to_string(), "bob".to_string(), "".to_string()],
            ["Bank".to_string(), "".to_string(), "".to_string()],
            ["a ::index:0".to_string(), "".to_string(), "x  |  y".to_string()],
        ]
    );
}

#[test]
fn item_lines_are_the_table_of_the_rows() {
    let lines = item_lines(&sample_items()).unwrap();
    assert_eq!(
        lines,
        vec![
            "GitHub       |  alice  |  https://github.com ::index:0",
            "Mail         |  bob    |                     ::index:1",
            "Bank         |         |                     ::index:2",
            "a ::index:0  |         |  x  |  y            ::index:3",
        ]
    );
}

#[test]
fn item_lines_of_no_items_fail() {
    assert_eq!(item_lines(&Vec::new()), Err(Error::EmptyTable));
}

#[test]
fn every_line_of_the_item_menu_gives_back_its_record() {
    let items = sample_items();
    let lines = item_lines(&items).unwrap();
    for (i, line) in lines.iter().enumerate() {
        let picked = conclude(true, &format!("{}\n", line));
        assert_eq!(select_item_description(sample_items(), &picked), Ok(items[i].clone()));
    }
}

#[test]
fn select_item_hands_on_failures() {
    assert_eq!(
        select_item_description(sample_items(), &Err(Error::NoSelectionMade)),
        Err(Error::NoSelectionMade)
    );
    assert_eq!(
        select_item_description(sample_items(), &Ok("Mail ::index:4".to_string())),
        Err(Error::IndexOutOfRange)
    );
    assert_eq!(
        select_item_description(sample_items(), &Ok("Mail".to_string())),
        Err(Error::MalformedSelection)
    );
    assert_eq!(
        select_item_description(Vec::new(), &Ok("Mail ::index:0".to_string())),
        Err(Error::EmptyTable)
    );
}

#[test]
fn item_listing_that_is_blank_means_no_items() {
    assert_eq!(check_item_listing(""), Err(Error::NoItemsFound));
    assert_eq!(check_item_listing(" \n\t\r\n"), Err(Error::NoItemsFound));
    assert_eq!(check_item_listing("[]"), Ok(()));
    assert_eq!(check_item_listing("\n[{\"id\":\"1\"}]\n"), Ok(()));
}

#[test]
fn conclude_gives_the_trimmed_line() {
    assert_eq!(conclude(true, "0 | password | ********\n"), Ok("0 | password | ********".to_string()));
    assert_eq!(conclude(true, "  1 | a  "), Ok("1 | a".to_string()));
}

#[test]
fn conclude_without_a_line_is_no_selection() {
    assert_eq!(conclude(true, ""), Err(Error::NoSelectionMade));
    assert_eq!(conclude(true, "\n"), Err(Error::NoSelectionMade));
    assert_eq!(conclude(true, " \t \n"), Err(Error::NoSelectionMade));
}

#[test]
fn conclude_after_a_failed_exit_is_a_failure() {
    assert_eq!(conclude(false, "0 | a\n"), Err(Error::PickerNonZeroExit));
    assert_eq!(conclude(false, ""), Err(Error::PickerNonZeroExit));
}

#[test]
fn picker_starts_idle_by_launching() {
    assert_eq!(start(), (PickerState::Idle, PickerAction::Launch));
}

#[test]
fn picker_run_goes_through_every_state() {
    let (states, result) = run(vec![
        PickerEvent::Launched,
        PickerEvent::LinesWritten,
        PickerEvent::InputClosed,
        PickerEvent::Waiting,
        exited(true, "1 | note | hi\n"),
    ]);
    assert_eq!(
        states,
        vec![
            PickerState::Idle,
            PickerState::Spawned,
            PickerState::LinesWritten,
            PickerState::InputClosed,
            PickerState::Awaiting,
            PickerState::Terminated,
        ]
    );
    assert_eq!(result, Some(Ok("1 | note | hi".to_string())));
}

#[test]
fn picker_asks_for_each_step_in_turn() {
    assert_eq!(step(PickerState::Idle, PickerEvent::Launched), (PickerState::Spawned, PickerAction::WriteLines));
    assert_eq!(
        step(PickerState::Spawned, PickerEvent::LinesWritten),
        (PickerState::LinesWritten, PickerAction::CloseInput)
    );
    assert_eq!(
        step(PickerState::LinesWritten, PickerEvent::InputClosed),
        (PickerState::InputClosed, PickerAction::Wait)
    );
    assert_eq!(
        step(PickerState::InputClosed, PickerEvent::Waiting),
        (PickerState::Awaiting, PickerAction::Collect)
    );
    assert_eq!(
        step(PickerState::Awaiting, exited(true, "x\n")),
        (PickerState::Terminated, PickerAction::Finish(Ok("x".to_string())))
    );
}

#[test]
fn picker_that_does_not_start_fails_the_launch() {
    let (states, result) = run(vec![PickerEvent::LaunchFailed]);
    assert_eq!(states, vec![PickerState::Idle, PickerState::Terminated]);
    assert_eq!(result, Some(Err(Error::PickerLaunchFailed)));
}

#[test]
fn picker_that_takes_no_input_fails_the_exchange() {
    let (states, result) = run(vec![PickerEvent::Launched, PickerEvent::WriteFailed]);
    assert_eq!(states, vec![PickerState::Idle, PickerState::Spawned, PickerState::Terminated]);
    assert_eq!(result, Some(Err(Error::PickerIOFailed)));
}

#[test]
fn picker_whose_end_is_not_seen_fails_the_exchange() {
    let (_, result) = run(vec![
        PickerEvent::Launched,
        PickerEvent::LinesWritten,
        PickerEvent::InputClosed,
        PickerEvent::Waiting,
        PickerEvent::WaitFailed,
    ]);
    assert_eq!(result, Some(Err(Error::PickerIOFailed)));
}

#[test]
fn picker_that_exits_without_success_is_a_failure() {
    let (_, result) = run(vec![
        PickerEvent::Launched,
        PickerEvent::LinesWritten,
        PickerEvent::InputClosed,
        PickerEvent::Waiting,
        exited(false, "0 | a\n"),
    ]);
    assert_eq!(result, Some(Err(Error::PickerNonZeroExit)));
}

#[test]
fn picker_that_is_dismissed_made_no_selection() {
    let (_, result) = run(vec![
        PickerEvent::Launched,
        PickerEvent::LinesWritten,
        PickerEvent::InputClosed,
        PickerEvent::Waiting,
        exited(true, "\n"),
    ]);
    assert_eq!(result, Some(Err(Error::NoSelectionMade)));
}

#[test]
fn picker_report_out_of_turn_ends_the_run() {
    assert_eq!(
        step(PickerState::Idle, exited(true, "0 | a\n")),
        (PickerState::Terminated, PickerAction::Finish(Err(Error::PickerIOFailed)))
    );
    assert_eq!(
        step(PickerState::Spawned, PickerEvent::Launched),
        (PickerState::Terminated, PickerAction::Finish(Err(Error::PickerIOFailed)))
    );
    assert_eq!(
        step(PickerState::LinesWritten, PickerEvent::Waiting),
        (PickerState::Terminated, PickerAction::Finish(Err(Error::PickerIOFailed)))
    );
    assert_eq!(
        step(PickerState::Terminated, PickerEvent::Launched),
        (PickerState::Terminated, PickerAction::Finish(Err(Error::PickerIOFailed)))
    );
}

#[test]
fn session_is_the_value_of_the_first_matching_line() {
    let env = "HOME=/home/a\nOP_SESSION=abc=def\nOP_SESSION=second\nLANG=C\n";
    assert_eq!(find_session(env), Some("abc=def".to_string()));
    assert_eq!(find_session("OP_SESSION=x"), Some("x".to_string()));
    assert_eq!(find_session("OP_SESSION="), Some("".to_string()));
    assert_eq!(find_session("A=1\r\nOP_SESSION=tok\r\nB=2\r\n"), Some("tok".to_string()));
    assert_eq!(find_session("OP_SESSION=tok\r"), Some("tok\r".to_string()));
    assert_eq!(find_session("\n\nOP_SESSION=late"), Some("late".to_string()));
}

#[test]
fn session_is_missing_where_no_line_names_it() {
    assert_eq!(find_session(""), None);
    assert_eq!(find_session("\n"), None);
    assert_eq!(find_session("HOME=/home/a\nLANG=C\n"), None);
    assert_eq!(find_session("OP_SESSION"), None);
    assert_eq!(find_session("OP_SESSION_x=1\n"), None);
    assert_eq!(find_session(" OP_SESSION=1\n"), None);
    assert_eq!(find_session("X=OP_SESSION=1\n"), None);
    assert_eq!(find_session("op_session=1\n"), None);
    assert_eq!(find_session("OP_SESSION\n=1\n"), None);
}

#[test]
fn session_agrees_with_std_line_handling() {
    let samples = [
        "",
        "OP_SESSION=a",
        "OP_SESSION=a\n",
        "OP_SESSION=a\r\n",
        "OP_SESSION=a\r",
        "\rOP_SESSION=a\n",
        "x\r\r\nOP_SESSION=b\r\r\n",
        "A=1\n\nOP_SESSION=c\nOP_SESSION=d",
        "A=1\nOP_SESSION\r\n=2\nOP_SESSIO=3\nOP_SESSION=4=5=\n",
        "=\n==\nOP_SESSION==\n",
    ];
    for env in samples {
        let expected = env.lines().find_map(|line| {
            let (key, value) = line.split_once('=')?;
            if key == "OP_SESSION" {
                Some(value.to_string())
            } else {
                None
            }
        });
        assert_eq!(find_session(env), expected, "{:?}", env);
    }
}

#[test]
fn session_query_that_failed_gives_no_session() {
    assert_eq!(
        get_op_session_from_systemd(false, "OP_SESSION=abc\n"),
        Err(Error::EnvironmentQueryFailed)
    );
    assert_eq!(get_op_session_from_systemd(true, "HOME=/\n"), Err(Error::NoSession));
    assert_eq!(get_op_session_from_systemd(true, "OP_SESSION=abc\n"), Ok("abc".to_string()));
}

#[test]
fn session_that_is_refused_means_not_signed_in() {
    assert_eq!(accept_session("abc".to_string(), true), Ok("abc".to_string()));
    assert_eq!(accept_session("abc".to_string(), false), Err(Error::NotSignedIn));
}

#[test]
fn errors_have_their_texts() {
    assert_eq!(Error::NoFieldsPresent.message(), "Item has no fields");
    assert_eq!(Error::NoDisplayableFields.message(), "No fields with values found");
    assert_eq!(Error::EmptyTable.message(), "No entries to display");
    assert_eq!(Error::PickerLaunchFailed.message(), "Failed to launch wofi");
    assert_eq!(Error::PickerIOFailed.message(), "Failed to exchange data with wofi");
    assert_eq!(Error::PickerNonZeroExit.message(), "wofi exited non-successfully");
    assert_eq!(Error::NoSelectionMade.message(), "No selection made");
    assert_eq!(Error::MalformedSelection.message(), "Failed to parse selected index");
    assert_eq!(Error::IndexOutOfRange.message(), "Selected index out of bounds");
    assert_eq!(
        Error::EnvironmentQueryFailed.message(),
        "`systemctl --user show-environment` failed"
    );
    assert_eq!(
        Error::NoSession.message(),
        "No OP_SESSION environment variable found in systemd user environment"
    );
    assert_eq!(Error::NotSignedIn.message(), "No OP_SESSION variable found in systemd environment");
    assert_eq!(
        Error::NoItemsFound.message(),
        "No 1Password items found.\n\nCheck your vault or sign-in status."
    );
}

#[test]
fn only_two_failures_are_announced() {
    assert_eq!(
        Error::NotSignedIn.notice(),
        Some((
            "🔐 Not signed in to 1Password".to_string(),
            "Please run `op signin` in a terminal or the 1Password GUI.\nThis launcher requires an active OP_SESSION variable.".to_string()
        ))
    );
    assert_eq!(
        Error::NoItemsFound.notice(),
        Some((
            "🔍 No Items".to_string(),
            "No 1Password items found.\n\nCheck your vault or sign-in status.".to_string()
        ))
    );
    for e in [
        Error::NoFieldsPresent,
        Error::NoDisplayableFields,
        Error::EmptyTable,
        Error::PickerLaunchFailed,
        Error::PickerIOFailed,
        Error::PickerNonZeroExit,
        Error::NoSelectionMade,
        Error::MalformedSelection,
        Error::IndexOutOfRange,
        Error::EnvironmentQueryFailed,
        Error::NoSession,
    ] {
        assert_eq!(e.notice(), None);
    }
}

#[test]
fn trimmed_line_of_a_whole_run_selects_the_record() {
    let items = sample_items();
    let lines = item_lines(&items).unwrap();
    let (_, result) = run(vec![
        PickerEvent::Launched,
        PickerEvent::LinesWritten,
        PickerEvent::InputClosed,
        PickerEvent::Waiting,
        exited(true, &format!("{}\n", lines[3])),
    ]);
    let picked = result.unwrap();
    assert_eq!(picked, Ok(trim(&lines[3])));
    assert_eq!(select_item_description(items, &picked).map(|d| d.id), Ok("4".to_string()));
}

#[test]
fn picker_input_is_every_line_with_a_newline() {
    assert_eq!(picker_input(&Vec::new()), "");
    assert_eq!(picker_input(&vec!["0 | a".to_string()]), "0 | a\n");
    assert_eq!(
        picker_input(&vec!["0 | a".to_string(), "".to_string(), "2 | é".to_string()]),
        "0 | a\n\n2 | é\n"
    );
}

#[test]
fn picker_input_of_a_menu_reads_back_line_by_line() {
    let lines = item_lines(&sample_items()).unwrap();
    let input = picker_input(&lines);
    let read: Vec<&str> = input.lines().collect();
    assert_eq!(read.len(), lines.len());
    for (i, line) in read.iter().enumerate() {
        assert_eq!(*line, lines[i]);
        let picked = conclude(true, &format!("{}\n", line));
        assert_eq!(select_item_description(sample_items(), &picked).map(|d| d.id), Ok(format!("{}", i + 1)));
    }
}

#[test]
fn bare_number_after_a_whole_run_selects_no_record() {
    let items = vec![description("1", "a", Some("b"), Some(vec!["c"]))];
    let picked = conclude(true, "0\n");
    assert_eq!(picked, Ok("0".to_string()));
    assert_eq!(select_item_description(items, &picked), Err(Error::MalformedSelection));
}
