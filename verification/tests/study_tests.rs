use flow_eval::study::allocator::Allocator;
use flow_eval::study::cli::Cli;
use flow_eval::study::db::{Database, Field, Row};
use flow_eval::study::eval::{Binop, Const, Direction, Expr, Relop, State};
use flow_eval::study::median::{median_population, Country};
use flow_eval::study::progress::ProgressBar;
use flow_eval::study::regex::Regex;
use flow_eval::study::url::{decode_url, Url};

fn s(st: &str) -> String {
    st.to_string()
}

fn chr(c: char) -> Box<Regex> {
    Box::new(Regex::Char(c))
}

fn num(n: isize) -> Box<Expr> {
    Box::new(Expr::Const(Const::Num(n)))
}

#[test]
fn regex_test1() {
    let r = Regex::And(chr('a'), Box::new(Regex::Repeat(chr('b'), 3)));
    assert!(r.matches("abbb"));
    assert!(!r.matches("abb"));
}

#[test]
fn regex_test2() {
    let r = Regex::And(
        Box::new(Regex::And(chr('a'), Box::new(Regex::Or(chr('b'), chr('c'))))),
        chr('d'),
    );
    assert!(r.matches("abd"));
    assert!(r.matches("acd"));
    assert!(!r.matches("abcd"));
}

#[test]
fn url_test1() {
    assert_eq!(
        Some(Url {
            scheme: Some("https".into()),
            hostname: "hey".into(),
            tld: None,
            port: Some(30),
            path: vec!["foo".into(), "bar".into()],
            query: None
        }),
        decode_url("https://hey:30/foo/bar")
    );
}

#[test]
fn url_test2() {
    assert_eq!(
        Some(Url {
            scheme: None,
            hostname: "test".into(),
            tld: Some("com".into()),
            port: None,
            path: vec!["ok".into()],
            query: None
        }),
        decode_url("test.com/ok")
    );
}

#[test]
fn url_test3() {
    assert_eq!(
        Some(Url {
            scheme: Some("http".into()),
            hostname: "example".into(),
            tld: Some("com".into()),
            port: Some(8080),
            path: vec!["yep".into()],
            query: Some("aquery".into()),
        }),
        decode_url("http://example.com:8080/yep?aquery")
    );
}

#[test]
fn url_bad_port() {
    assert_eq!(None, decode_url("http://example.com:eight/yep"));
}

#[test]
fn url_empty_host() {
    assert_eq!(None, decode_url("https://:80/x"));
}

#[test]
fn db_test1() {
    let mut db = Database::new(vec!["id".into(), "name".into()], vec![]);
    let row = Row::new(vec![Field::Integer(0), Field::String("will".into())]);
    db.insert(row.clone());
    assert_eq!(vec![row.clone()], db.select("id", &Field::Integer(0)));
}

#[test]
fn db_test2() {
    let mut db = Database::new(vec!["id".into(), "name".into()], vec!["name".into()]);
    let rows = [(0, "will"), (1, "connor"), (2, "maryyann"), (3, "will")]
        .into_iter()
        .map(|(id, name)| Row::new(vec![Field::Integer(id), Field::String(name.to_string())]))
        .collect::<Vec<_>>();
    for row in &rows {
        db.insert(row.clone());
    }
    assert_eq!(
        vec![rows[0].clone(), rows[3].clone()],
        db.select("name", &Field::String("will".into()))
    );
}

#[test]
fn eval_test1() {
    let e = Expr::Relop(
        Relop::And,
        Box::new(Expr::Const(Const::Bool(true))),
        Box::new(Expr::Const(Const::Bool(false))),
    );
    assert_eq!(Some(Const::Bool(false)), e.eval(&mut State::default()));
}

#[test]
fn eval_test2() {
    let e = Expr::Let(
        "x".into(),
        num(1),
        Box::new(Expr::Binop(
            Binop::Add,
            Box::new(Expr::Var("x".into())),
            num(2),
        )),
    );
    assert_eq!(Some(Const::Num(3)), e.eval(&mut State::default()));
}

#[test]
fn eval_test3() {
    let x = "x".to_string();
    let e = Expr::Let(
        x.clone(),
        num(0),
        Box::new(Expr::Binop(
            Binop::Add,
            Box::new(Expr::Let(x.clone(), num(1), Box::new(Expr::Var(x.clone())))),
            Box::new(Expr::Var(x.clone())),
        )),
    );
    assert_eq!(Some(Const::Num(1)), e.eval(&mut State::default()));
}

#[test]
fn eval_unbound_var() {
    let e = Expr::Var("nope".into());
    assert_eq!(None, e.eval(&mut State::default()));
}

#[test]
fn eval_division_by_zero() {
    let e = Expr::Binop(Binop::Div, num(1), num(0));
    assert_eq!(None, e.eval(&mut State::default()));
}

#[test]
fn eval_sum_match() {
    let e = Expr::Match(
        Box::new(Expr::Sum(Direction::Right, num(7))),
        ("l".into(), num(0)),
        ("r".into(), Box::new(Expr::Var("r".into()))),
    );
    assert_eq!(Some(Const::Num(7)), e.eval(&mut State::default()));
}

#[test]
fn cli_cli_test1() {
    let mut cli = Cli::new();
    cli.flag(s("verbose"), false, false);
    cli.flag(s("output-type"), false, true);
    cli.arg(s("file"));
    assert_eq!(
        Some(vec![
            (s("verbose"), s("")),
            (s("output-type"), s("json")),
            (s("file"), s("input.txt"))
        ]),
        cli.parse(&vec![
            s("--verbose"),
            s("--output-type"),
            s("json"),
            s("input.txt")
        ])
    );
}

#[test]
fn cli_unknown_flag() {
    let cli = Cli::new();
    assert_eq!(None, cli.parse(&vec![s("--wat")]));
}

#[test]
fn alloc_test1() {
    let size = std::mem::size_of::<usize>();
    let mut alloc = Allocator::new(size * 10);
    let ns = (0..5)
        .map(|_| alloc.allocate(true, size, size).unwrap())
        .collect::<Vec<_>>();
    assert_eq!(ns, vec![0, size, 2 * size, 3 * size, 4 * size]);
}

#[test]
fn alloc_test2() {
    let size = std::mem::size_of::<usize>();
    let mut alloc = Allocator::new(size + 1);
    let n1 = alloc.allocate(true, size, size);
    assert!(n1.is_some());
    let n2 = alloc.allocate(true, size, size);
    assert!(n2.is_none());
}

#[test]
fn median_test1() {
    let countries = vec![
        Country {
            name: s("USA"),
            population: 328,
            continent: s("North America"),
            exports: vec![s("wheat"), s("cheese")],
        },
        Country {
            name: s("Canada"),
            population: 37,
            continent: s("North America"),
            exports: vec![s("poutine"), s("wheat")],
        },
        Country {
            name: s("Mexico"),
            population: 128,
            continent: s("North America"),
            exports: vec![s("steel"), s("wheat")],
        },
        Country {
            name: s("Costa Rica"),
            population: 5,
            continent: s("North America"),
            exports: vec![s("coffee"), s("bananas")],
        },
        Country {
            name: s("Ethiopia"),
            population: 109,
            continent: s("Africa"),
            exports: vec![s("coffee"), s("wheat")],
        },
    ];

    let result = median_population(&countries, s("wheat"));
    assert_eq!(result.len(), 2);
    assert_eq!(
        result[0],
        (s("North America"), vec![s("Mexico")], 128)
    );
    assert_eq!(result[1], (s("Africa"), vec![s("Ethiopia")], 109));
}

#[test]
fn progress_progress_test1() {
    let mut bar = ProgressBar::new(3);
    for _ in [1, 2, 3] {
        bar.bump();
        println!("{}", bar.render());
    }
}

#[test]
fn const_accessors_read_each_shape() {
    assert_eq!(Const::Num(4).as_num(), 4);
    assert_eq!(Const::Bool(true).as_bool(), true);
    assert_eq!(Const::Str("hey".into()).as_str(), "hey");
    let t = Const::Tuple(vec![Const::Num(1), Const::Num(2)]);
    assert_eq!(t.as_tuple().len(), 2);
    let sum = Const::Sum(Direction::Left, Box::new(Const::Num(9)));
    let (d, payload) = sum.as_sum();
    assert_eq!(*d, Direction::Left);
    assert_eq!(payload.as_num(), 9);
}
