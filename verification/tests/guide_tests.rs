use flow_eval::guide::cli::Cli;
use flow_eval::guide::countries::{median_population, Country};
use flow_eval::guide::progress::ProgressBar;
use flow_eval::guide::tutorial::{union, Location, Person};
use flow_eval::study::grep::clean_output;
use std::collections::HashSet;

fn s(st: &str) -> String {
    st.to_string()
}

fn cli() -> Cli {
    Cli::new()
        .positional("file")
        .named("verbose", false, false)
        .named("output-format", true, true)
}

#[test]
fn cli_test1() {
    let args = vec![s("my-app"), s("--output-format"), s("json"), s("foo.rs")];
    assert_eq!(
        Ok(vec![
            (s("output-format"), s("json")),
            (s("file"), s("foo.rs"))
        ]),
        cli().parse(args)
    );
}

#[test]
fn cli_test2() {
    let args = vec![s("my-app")];
    assert_eq!(
        Err(s(r#"Missing positional arguments: file
Still waiting on positional args:
- file
Still waiting on named args:
- output-format
"#)),
        cli().parse(args)
    );
}

#[test]
fn cli_test3() {
    let args = vec![
        s("my-app"),
        s("--verbose"),
        s("foo.rs"),
        s("--output-4mat"),
        s("json"),
    ];
    assert_eq!(
        Err(r#"Invalid named argument "output-4mat"
Still waiting on named args:
- output-format
"#
        .into()),
        cli().parse(args)
    );
}

#[test]
fn cli_missing_binary() {
    assert_eq!(
        Err(s(r#"Missing binary
Still waiting on positional args:
- file
Still waiting on named args:
- output-format
"#)),
        cli().parse(vec![])
    );
}

#[test]
fn cli_missing_value() {
    let args = vec![s("my-app"), s("foo.rs"), s("--output-format")];
    assert_eq!(
        Err(s(r#"Missing value for flag "output-format""#)),
        cli().parse(args)
    );
}

#[test]
fn countries_median_test1() {
    let countries = vec![
        Country {
            name: s("USA"),
            population: 328,
            continent: s("North America"),
            exports: vec![s("cheese"), s("wheat")],
        },
        Country {
            name: s("Canada"),
            population: 37,
            continent: s("North America"),
            exports: vec![s("poutine"), s("wheat")],
        },
        Country {
            name: s("Mexico"),
            population: 128,
            continent: s("North America"),
            exports: vec![s("steel"), s("wheat")],
        },
        Country {
            name: s("Costa Rica"),
            population: 5,
            continent: s("North America"),
            exports: vec![s("coffee"), s("bananas")],
        },
        Country {
            name: s("Tanzania"),
            population: 59,
            continent: s("Africa"),
            exports: vec![s("gold"), s("wheat")],
        },
        Country {
            name: s("Liberia"),
            population: 5,
            continent: s("Africa"),
            exports: vec![s("rubber"), s("wheat")],
        },
    ];

    let result = median_population(&countries, s("wheat"));
    assert_eq!(result.len(), 2);
    assert_eq!(
        result[0],
        (s("North America"), vec![s("Mexico")], 128)
    );
    assert_eq!(
        result[1],
        (s("Africa"), vec![s("Liberia"), s("Tanzania")], 32)
    );
}

#[test]
fn tutorial_test1() {
    assert_eq!(
        Some(Person {
            name: "Will".to_string(),
            location: Location::WorkingFromHome,
            admin: true
        }),
        Person::new("will", "wfh")
    )
}

#[test]
fn tutorial_union_grows() {
    let mut set: HashSet<u64> = HashSet::new();
    set.insert(1);
    assert!(union(&mut set, &vec![2, 3]));
    assert!(!union(&mut set, &vec![1, 2]));
    assert_eq!(set.len(), 3);
}

#[test]
fn progress_test1() {
    let mut bar = ProgressBar::new_unbounded();
    for _ in 0..3 {
        bar.bump();
        println!("{}", bar.render());
    }
}

#[test]
fn progress_test2() {
    let mut bar = ProgressBar::new(3);
    for _ in vec![1, 2, 3] {
        bar.bump();
        println!("{}", bar.render());
    }
    assert_eq!(bar.render(), "[***]");
}

#[test]
fn grep_output_trimmed() {
    let text = "  /home/u/proj/a.rs:match one\nunrelated line  \n";
    let lines = clean_output(text, "/home/u/proj");
    assert_eq!(lines, vec![s("match one"), s("unrelated line")]);
}
