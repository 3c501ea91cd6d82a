use pattrns::tidal::cycle::{parse_cycle, Cycle, Step, Target, Value};
use pattrns::tidal::output::{cycle_output, Event, OutputError, Span};

fn show_target(t: &Target) -> String {
    match t {
        Target::Index(i) => format!("#{}", i),
        Target::Named(n, None) => n.clone(),
        Target::Named(n, Some(v)) => format!("{}={}", n, v.parse::<f64>().unwrap()),
    }
}

fn show_value(v: &Value) -> String {
    match v {
        Value::Rest => "~".to_string(),
        Value::Hold => "_".to_string(),
        Value::Integer(i) => format!("{}", i),
        Value::Float(t) => format!("f{}", t),
        Value::Pitch(p) => format!("n{}", p.midi_note()),
        Value::Chord(p, m) => format!("n{}'{}", p.midi_note(), m),
        Value::Target(t) => format!("t{}", show_target(t)),
        Value::Name(n) => n.clone(),
    }
}

fn show_all(steps: &[Step]) -> String {
    steps.iter().map(show).collect::<Vec<_>>().join(" ")
}

fn show(step: &Step) -> String {
    match step {
        Step::Single(v, _) => show_value(v),
        Step::Subdivision(v) => format!("[{}]", show_all(v)),
        Step::Alternating(v) => format!("<{}>", show_all(v)),
        Step::Polymeter(v, c) => format!("{{{}}}%{}", show_all(v), show(c)),
        Step::Stack(v) => format!("stack({})", show_all(v)),
        Step::Choices(v) => format!("choose({})", show_all(v)),
        Step::Fast(l, r) => format!("{}*{}", show(l), show(r)),
        Step::Slow(l, r) => format!("{}/{}", show(l), show(r)),
        Step::Target(l, r) => format!("{}:{}", show(l), show(r)),
        Step::Degrade(l, v) => format!("{}?{}", show(l), show_value(v)),
        Step::Bjorklund(l, a, b, c) => match c {
            Some(c) => format!("{}({},{},{})", show(l), show(a), show(b), show(c)),
            None => format!("{}({},{})", show(l), show(a), show(b)),
        },
        Step::Repeat => "!".to_string(),
        Step::Replicate(l, v) => format!("{}!{}", show(l), show_value(v)),
        Step::Weight(l, v) => format!("{}@{}", show(l), show_value(v)),
        Step::Range(x, y) => format!("{}..{}", x, y),
    }
}

fn parsed(input: &str) -> String {
    match parse_cycle(input) {
        Ok(step) => show(&step),
        Err(e) => format!("error: {}", e),
    }
}

#[test]
fn parse() {
    assert!(Cycle::from("a b c [d").is_err());
    assert!(Cycle::from("a b/ c [d").is_err());
    assert!(Cycle::from("a b--- c [d").is_err());
    assert!(Cycle::from("*a b c [d").is_err());
    assert!(Cycle::from("a {{{}}").is_err());
    assert!(Cycle::from("] a z [").is_err());
    assert!(Cycle::from("->err").is_err());
    assert!(Cycle::from("(a, b)").is_err());
    assert!(Cycle::from("#(12, 32)").is_err());
    assert!(Cycle::from("#c $").is_err());

    assert!(Cycle::from("c44'mode").is_err());
    assert!(Cycle::from("c4'!mode").is_err());
    assert!(Cycle::from("y'mode").is_err());
    assert!(Cycle::from("c4'mo'de").is_err());
    assert!(Cycle::from("_names_cannot_start_with_underscore").is_err());

    assert!(Cycle::from("c4'mode").is_ok());
    assert!(Cycle::from("c'm7#^-").is_ok());
    assert!(Cycle::from("[[[[[[[[]]]]]][[[[[]][[[]]]]]][[[][[[]]]]][[[[]]]]]]").is_ok());
}

#[test]
fn cycle_error_text() {
    assert_eq!(parse_cycle("[a").err(), Some("invalid mini-notation".to_string()));
}

#[test]
fn cycle_words() {
    assert_eq!(parsed("a b c d"), "[n57 n59 n48 n50]");
    assert_eq!(parsed("second middle R"), "[second middle R]");
    assert_eq!(parsed("1 -2 0.5 .25 -1. 3"), "[1 -2 f0.5 f.25 f-1. 3]");
    assert!(parse_cycle("b#10").is_err());
}

#[test]
fn cycle_word_kinds() {
    assert_eq!(parsed("c#4 eb3 bb1 D#6 cb0"), "[n49 n39 n22 n75 n0]");
    assert_eq!(parsed("c4'maj7 e'm"), "[n48'maj7 n52'm]");
    assert_eq!(parsed("~ _ __ -"), "[~ _ _ _ ~]");
    assert!(parse_cycle("2147483648").is_err());
    assert_eq!(parsed("-2147483648"), "[-2147483648]");
}

#[test]
fn cycle_empty_groups_are_rests() {
    assert_eq!(parsed(""), "~");
    assert_eq!(parsed("   "), "~");
    assert_eq!(parsed("[1 middle _] {}%42 [] <>"), "[[1 middle _] ~ ~ ~]");
    assert_eq!(parsed("a"), "[n57]");
}

#[test]
fn cycle_groups_and_stacks() {
    assert_eq!(parsed("a [b c] <d e>"), "[n57 [n59 n48] <n50 n52>]");
    assert_eq!(parsed("a b, c"), "stack([n57 n59] [n48])");
    assert_eq!(parsed("<a b, c>"), "[stack(<n57 n59> <n48>)]");
    assert_eq!(parsed("[a,]"), "[[n57]]");
    assert_eq!(parsed("\ta\r\n\tb\nc\n d\n\n"), "[n57 n59 n48 n50]");
}

#[test]
fn cycle_polymeters() {
    assert_eq!(parsed("{a b c}%4"), "[{n57 n59 n48}%4]");
    assert_eq!(parsed("{a b c}"), "[[n57 n59 n48]]");
    assert_eq!(parsed("{a b, c d e}"), "[stack({n57 n59}%2 {n48 n50 n52}%2)]");
    assert_eq!(parsed("{a b, c}%<2 3>"), "[stack({n57 n59}%<2 3> {n48}%<2 3>)]");
}

#[test]
fn cycle_repeats_replicates_and_weights() {
    assert_eq!(parsed("1!2 3 [4!3 5]"), "[1 1 3 [4 4 4 5]]");
    assert_eq!(parsed("a ! ! b"), "[n57 n57 n57 n59]");
    assert_eq!(parsed("! a"), "[~ n57]");
    assert_eq!(parsed("a! b"), "[n57 n57 n59]");
    assert_eq!(parsed("a@3 b"), "[n57 _ _ n59]");
    assert_eq!(parsed("a!0 b!-1"), "[n57 n59]");
    assert!(parse_cycle("a!b").is_err());
}

#[test]
fn cycle_choices() {
    assert_eq!(parsed("a | b | c d"), "[choose(n57 n59 n48) n50]");
    assert_eq!(parsed("a!2 | b"), "[choose(n57 n57 n59)]");
    assert!(parse_cycle("| a").is_err());
    assert!(parse_cycle("a |").is_err());
    assert!(parse_cycle("a | | b").is_err());
    assert!(parse_cycle("a |, b").is_err());
}

#[test]
fn cycle_operators() {
    assert_eq!(parsed("a*2 b/3"), "[n57*2 n59/3]");
    assert_eq!(parsed("[a b c d]*2*4"), "[[n57 n59 n48 n50]*2*4]");
    assert_eq!(parsed("a:1 b:target"), "[n57:1 n59:target]");
    assert_eq!(parsed("0*[4 3]"), "[0*[4 3]]");
    assert_eq!(parsed("a? b?0.3 c?30"), "[n57?f0.5 n59?f0.3 n48?30]");
    assert!(parse_cycle("a?x").is_err());
    assert!(parse_cycle("a*").is_err());
}

#[test]
fn cycle_euclidean_expressions() {
    assert_eq!(parsed("c(3,8,9)"), "[n48(3,8,9)]");
    assert_eq!(parsed("a( 3 , 8 )"), "[n57(3,8)]");
    assert_eq!(parsed("[a b](<3 5>,8)*2"), "[[n57 n59](<3 5>,8)*2]");
    assert!(parse_cycle("a(3)").is_err());
    assert!(parse_cycle("a(3,8").is_err());
}

fn gcd(a: u64, b: u64) -> u64 {
    if b == 0 {
        a
    } else {
        gcd(b, a % b)
    }
}

fn frac((n, d): (u64, u64)) -> (u64, u64) {
    let g = gcd(n, d).max(1);
    (n / g, d / g)
}

fn show_event_value(v: &Value) -> String {
    match v {
        Value::Float(t) => format!("f{}", t.parse::<f64>().unwrap()),
        _ => show_value(v),
    }
}

fn show_event(e: &Event) -> String {
    let (sn, sd) = frac(e.start);
    let (en, ed) = frac(e.end);
    let ts: Vec<String> = e.targets.iter().map(show_target).collect();
    if ts.is_empty() {
        format!("{}@{}/{}-{}/{}", show_event_value(&e.value), sn, sd, en, ed)
    } else {
        format!("{}@{}/{}-{}/{}[{}]", show_event_value(&e.value), sn, sd, en, ed, ts.join(","))
    }
}

fn events_of(input: &str, cycle: u32, draws: &[u64]) -> Vec<String> {
    let step = parse_cycle(input).unwrap();
    let channels = cycle_output(&step, cycle, &draws.to_vec(), 0x1000).unwrap();
    channels
        .iter()
        .map(|c| c.iter().map(show_event).collect::<Vec<_>>().join(" "))
        .collect()
}

#[test]
fn cycle_output_subdivisions() {
    assert_eq!(events_of("a b c d", 0, &[]), vec!["n57@0/1-1/4 n59@1/4-1/2 n48@1/2-3/4 n50@3/4-1/1"]);
    assert_eq!(
        events_of("a b [ c d ]", 0, &[]),
        vec!["n57@0/1-1/3 n59@1/3-2/3 n48@2/3-5/6 n50@5/6-1/1"]
    );
    assert_eq!(
        events_of("[a a] [b4 b5 b6]", 0, &[]),
        vec!["n57@0/1-1/4 n57@1/4-1/2 n59@1/2-2/3 n71@2/3-5/6 n83@5/6-1/1"]
    );
}

#[test]
fn cycle_output_holds_and_rests() {
    assert_eq!(events_of("[1 __ 2] 3", 0, &[]), vec!["1@0/1-3/8 2@3/8-1/2 3@1/2-1/1"]);
    assert_eq!(
        events_of("[1 middle _] {}%42 [] <>", 0, &[]),
        vec!["1@0/1-1/12 middle@1/12-1/4 ~@1/4-1/1"]
    );
    assert_eq!(events_of("a ~ ~ ~", 0, &[]), events_of("a - - -", 0, &[]));
    assert_eq!(events_of("~ a", 0, &[]), vec!["n57@1/2-1/1"]);
    assert_eq!(events_of("[! ! a !]", 0, &[]), events_of("[~ ~ a a]", 0, &[]));
}

#[test]
fn cycle_output_stacks() {
    assert_eq!(
        events_of("[R [e [n o]]] , [[[i s] e ] _]", 0, &[]),
        vec![
            "R@0/1-1/2 n52@1/2-3/4 n@3/4-7/8 o@7/8-1/1",
            "i@0/1-1/8 s@1/8-1/4 n52@1/4-1/1",
        ]
    );
}

#[test]
fn cycle_output_alternations() {
    let expected = [
        vec!["n57@0/1-1/2 n59@1/2-1/1"],
        vec!["n48@1/2-1/1"],
        vec!["n59@1/2-1/1"],
        vec!["n9@0/1-1/2 n50@1/2-1/1"],
    ];
    for (cycle, e) in expected.iter().enumerate() {
        assert_eq!(&events_of("<a ~ ~ a0> <b <c d>>", cycle as u32, &[]), e);
    }
    assert_eq!(events_of("<<a a8> b,  <c [d e]>>", 1, &[]), vec!["n59@0/1-1/1", "n50@0/1-1/2 n52@1/2-1/1"]);
}

#[test]
fn cycle_output_euclidean() {
    assert_eq!(
        events_of("c(3,8,9)", 0, &[]),
        vec!["n48@1/4-3/8 ~@3/8-5/8 n48@5/8-3/4 ~@3/4-7/8 n48@7/8-1/1"]
    );
    assert_eq!(events_of("[a b c](3,8,9)", 0, &[]), events_of("[a b c](3,8,1)", 0, &[]));
    assert_eq!(events_of("[a b c](3,8,7)", 0, &[]), events_of("[a b c](3,8,-1)", 0, &[]));
    assert_eq!(events_of("a(0,8)", 0, &[]), vec![""]);
    assert_eq!(events_of("a(0,8) b", 0, &[]), vec!["n59@1/2-1/1"]);
}

#[test]
fn cycle_output_choices_follow_draws() {
    assert_eq!(events_of("a | b | c", 0, &[0]), vec!["n57@0/1-1/1"]);
    assert_eq!(events_of("a | b | c", 0, &[4]), vec!["n59@0/1-1/1"]);
    let step = parse_cycle("a | b").unwrap();
    assert_eq!(cycle_output(&step, 0, &vec![], 16).err(), Some(OutputError::MissingDraw));
}

#[test]
fn cycle_output_errors() {
    let step = parse_cycle("a b c d").unwrap();
    assert_eq!(cycle_output(&step, 0, &vec![], 3).err(), Some(OutputError::EventLimit));
    assert!(cycle_output(&step, 0, &vec![], 4).is_ok());
    for text in ["a*1.00000000000000000001", "{a b}%1.00000000000000000001"] {
        let step = parse_cycle(text).unwrap();
        assert_eq!(cycle_output(&step, 0, &vec![], 16).err(), Some(OutputError::Unsupported));
    }
}

#[test]
fn cycle_output_windows_over_channels() {
    assert_eq!(events_of("[a, b]/2", 0, &[]), vec!["n57@0/1-1/1", "n59@0/1-1/1"]);
    assert_eq!(events_of("[a, b]/2", 1, &[]), vec!["", ""]);
    assert_eq!(
        events_of("[a b, c]*1.5", 1, &[]),
        vec!["n59@0/1-1/3 n57@1/3-2/3 n59@2/3-1/1", "n48@1/3-1/1"]
    );
    assert_eq!(events_of("{[a, b] c}%3", 0, &[]), vec!["n57@0/1-1/3 n48@1/3-2/3 n57@2/3-1/1", "n59@0/1-1/3 n59@2/3-1/1"]);
}

#[test]
fn cycle_output_decimal_polymeter_counts() {
    assert_eq!(events_of("{a b c}%1.5", 0, &[]), vec!["n57@0/1-2/3 n59@2/3-1/1"]);
    assert_eq!(events_of("{a b c}%1.5", 1, &[]), vec!["n48@1/3-1/1"]);
    assert_eq!(events_of("{a b}%0.0", 0, &[]), vec![""]);
    assert_eq!(events_of("{a b}%-1.5", 0, &[]), vec![""]);
}

#[test]
fn cycle_output_patterned_speeds() {
    assert_eq!(events_of("0*<1 2>", 0, &[]), vec!["0@0/1-1/1"]);
    assert_eq!(events_of("0*<1 2>", 1, &[]), vec!["0@0/1-1/2 0@1/2-1/1"]);
    assert_eq!(events_of("0*[4 3]", 0, &[]), vec!["0@0/1-1/4 0@1/4-1/2 0@2/3-1/1"]);
    assert_eq!(events_of("{0 1 2 3}%<2 3>", 0, &[]), vec!["0@0/1-1/2 1@1/2-1/1"]);
    assert_eq!(events_of("{0 1 2 3}%<2 3>", 1, &[]), vec!["3@0/1-1/3 0@1/3-2/3 1@2/3-1/1"]);
    assert_eq!(events_of("a*[]", 0, &[]), vec![""]);
    assert_eq!(events_of("[c d]/0", 0, &[]), vec![""]);
    assert_eq!(events_of("[c d]*0", 0, &[]), vec![""]);
    assert_eq!(events_of("a*[1 2]", 0, &[]), vec!["n57@0/1-1/2 n57@1/2-1/1"]);
    assert_eq!(events_of("a/[1 2]", 1, &[]), vec!["n57@0/1-1/2"]);
}

#[test]
fn cycle_output_patterned_targets() {
    assert_eq!(
        events_of("[a b c d]:[1 2 3]", 0, &[]),
        vec!["n57@0/1-1/4[#1] n59@1/4-1/2[#1,#2] n48@1/2-3/4[#2,#3] n50@3/4-1/1[#3]"]
    );
    assert_eq!(
        events_of("[a b]:[1, 2]", 0, &[]),
        vec!["n57@0/1-1/2[#1] n59@1/2-1/1[#1]", "n57@0/1-1/2[#2] n59@1/2-1/1[#2]"]
    );
    assert_eq!(events_of("a:[~ 1]", 0, &[]), vec!["n57@0/1-1/1[#1]"]);
    assert_eq!(events_of("a/2:[1 2]", 1, &[]), vec!["n57@0/1-1/1[#1,#2]"]);
    assert_eq!(events_of("a/2:1", 1, &[]), vec![""]);
}

#[test]
fn cycle_generate_advance_reset() {
    let mut cycle = Cycle::from("<a b c>").unwrap();
    assert!(cycle.is_stateful());
    let mut got = vec![];
    for _ in 0..4 {
        let e = cycle.generate().unwrap();
        got.push(e[0].iter().map(show_event).collect::<Vec<_>>().join(" "));
    }
    assert_eq!(got, vec!["n57@0/1-1/1", "n59@0/1-1/1", "n48@0/1-1/1", "n57@0/1-1/1"]);
    cycle.reset();
    cycle.advance();
    let e = cycle.generate().unwrap();
    assert_eq!(show_event(&e[0][0]), "n59@0/1-1/1");
    assert!(!Cycle::from("a b [c d]").unwrap().is_stateful());
    let limited = Cycle::from("a b c").unwrap().with_event_limit(2);
    let mut limited = limited;
    assert_eq!(limited.generate().err(), Some(OutputError::EventLimit));
    assert!(Cycle::from("[a").is_err());
}

#[test]
fn cycle_output_speed() {
    assert_eq!(
        events_of("1 second*2 eb3*3 [32 32]*4", 0, &[]),
        vec![
            "1@0/1-1/4 second@1/4-3/8 second@3/8-1/2 n39@1/2-7/12 n39@7/12-2/3 n39@2/3-3/4 \
             32@3/4-25/32 32@25/32-13/16 32@13/16-27/32 32@27/32-7/8 32@7/8-29/32 \
             32@29/32-15/16 32@15/16-31/32 32@31/32-1/1"
        ]
    );
    assert_eq!(events_of("[c d]*0", 0, &[]), vec![""]);
    assert_eq!(events_of("a*[]", 0, &[]), vec![""]);
    assert_eq!(events_of("<a b>*2", 0, &[]), vec!["n57@0/1-1/2 n59@1/2-1/1"]);
    assert_eq!(events_of("<a b c>*2", 1, &[]), vec!["n48@0/1-1/2 n57@1/2-1/1"]);
}

#[test]
fn cycle_output_alike_without_alternations() {
    for text in ["a b [c d]", "[a b, c] d(3,8)", "a | b"] {
        let first = events_of(text, 0, &[1]);
        for cycle in [1, 2, 7, 1000] {
            assert_eq!(events_of(text, cycle, &[1]), first);
        }
    }
    assert_ne!(events_of("<a b>", 0, &[]), events_of("<a b>", 1, &[]));
}

#[test]
fn cycle_output_slow() {
    assert_eq!(events_of("[c d]/1000000", 0, &[]), vec!["n48@0/1-1/1"]);
    assert_eq!(events_of("[c d]/0", 0, &[]), vec![""]);
    assert!(Cycle::from("[c d]/1000000000000").is_err());
    assert_eq!(events_of("[a b c d]/2", 0, &[]), vec!["n57@0/1-1/2 n59@1/2-1/1"]);
    assert_eq!(events_of("[a b c d]/2", 1, &[]), vec!["n48@0/1-1/2 n50@1/2-1/1"]);
    assert_eq!(events_of("a/2", 0, &[]), vec!["n57@0/1-1/1"]);
    assert_eq!(events_of("a/2", 1, &[]), vec![""]);
    assert_eq!(events_of("b [a b c]/2", 1, &[]), vec!["n59@0/1-1/2 n48@2/3-1/1"]);
    assert_eq!(events_of("<a b>/2", 2, &[]), vec!["n59@0/1-1/1"]);
}

#[test]
fn cycle_output_polymeters() {
    let expected = [
        vec!["-3@0/1-1/4 -2@1/4-1/2 -1@1/2-3/4 0@3/4-1/1"],
        vec!["1@0/1-1/4 2@1/4-1/2 3@1/2-3/4 -3@3/4-1/1"],
        vec!["-2@0/1-1/4 -1@1/4-1/2 0@1/2-3/4 1@3/4-1/1"],
    ];
    for (cycle, e) in expected.iter().enumerate() {
        assert_eq!(&events_of("{-3 -2 -1 0 1 2 3}%4", cycle as u32, &[]), e);
    }
    for cycle in 0..4 {
        assert_eq!(events_of("{a b!2 c}%3", cycle, &[]), events_of("{a b b c}%3", cycle, &[]));
        assert_eq!(events_of("a b, {c d e}%2", cycle, &[]), events_of("{a b, c d e}", cycle, &[]));
    }
    assert_eq!(events_of("{a b c}%0", 0, &[]), vec![""]);
}

fn targets_of(input: &str) -> Vec<String> {
    let step = parse_cycle(input).unwrap();
    let channels = cycle_output(&step, 0, &vec![], 0x1000).unwrap();
    channels[0]
        .iter()
        .map(|e| {
            let ts: Vec<String> = e
                .targets
                .iter()
                .map(show_target)
                .collect();
            format!("{}[{}]", show_value(&e.value), ts.join(","))
        })
        .collect()
}

#[test]
fn cycle_output_targets() {
    assert_eq!(targets_of("a:1 b:target"), vec!["n57[#1]", "n59[target]"]);
    assert_eq!(targets_of("a:1:2 b:1:1"), vec!["n57[#1,#2]", "n59[#1]"]);
    assert_eq!(targets_of("[a b]:c4"), vec!["n57[c4]", "n59[c4]"]);
    assert_eq!(targets_of("a:~ b"), vec!["n57[]", "n59[]"]);
}

#[test]
fn cycle_output_degrade() {
    assert_eq!(events_of("a?", 0, &[0]), vec!["n57@0/1-1/1"]);
    assert_eq!(events_of("a?", 0, &[u64::MAX]), vec![""]);
    assert_eq!(events_of("a?", 0, &[1u64 << 63]), vec!["n57@0/1-1/1"]);
    assert_eq!(events_of("a?", 0, &[(1u64 << 63) + 1]), vec![""]);
    assert_eq!(events_of("[a b]?0.5", 0, &[0, u64::MAX]), vec!["n57@0/1-1/2 ~@1/2-1/1"]);
    assert_eq!(events_of("a?0 b?100", 0, &[0, u64::MAX]), vec!["n57@0/1-1/2 n59@1/2-1/1"]);
    assert_eq!(events_of("a?0 b?100", 0, &[1, u64::MAX]), vec!["n59@1/2-1/1"]);
    for draws in [[0u64, 0], [u64::MAX, 0], [0, u64::MAX], [5, 1u64 << 62]] {
        assert_eq!(events_of("a? b?", 0, &draws), events_of("a?0.5 b?0.5", 0, &draws));
    }
    let step = parse_cycle("a?").unwrap();
    assert_eq!(cycle_output(&step, 0, &vec![], 16).err(), Some(OutputError::MissingDraw));
}

fn assert_cycle_equality(a: &str, b: &str) {
    for cycle in 0..6 {
        let draws = [0u64, u64::MAX, 1u64 << 62, 7, 1u64 << 63, 3];
        assert_eq!(events_of(a, cycle, &draws), events_of(b, cycle, &draws), "{} / {}", a, b);
    }
}

#[test]
fn cycle_equalities() {
    assert_cycle_equality("a? b?", "a?0.5 b?0.5");
    assert_cycle_equality("[a b c](3,8,9)", "[a b c](3,8,1)");
    assert_cycle_equality("[a b c](3,8,7)", "[a b c](3,8,-1)");
    assert_cycle_equality("[a a a a]", "[a ! ! !]");
    assert_cycle_equality("[! ! a !]", "[~ ~ a a]");
    assert_cycle_equality("a ~ ~ ~", "a - - -");
    assert_cycle_equality("[a b] ! ! <a b c> !", "[a b] [a b] [a b] <a b c> <a b c>");
    assert_cycle_equality("{a b!2 c}%3", "{a b b c}%3");
    assert_cycle_equality("a b, {c d e}%2", "{a b, c d e}");
    assert_cycle_equality("0..3", "0 1 2 3");
    assert_cycle_equality("-5..-8", "-5 -6 -7 -8");
    assert_cycle_equality("a b . c d", "[a b] [c d]");
    assert_cycle_equality(
        "a b . c d e . f g h i [j k . l m]",
        "[a b] [c d e] [f g h i [[j k] [l m]]]",
    );
    assert_cycle_equality(
        "a b . c d e , f g h i . j k, l m",
        "[a b] [c d e], [[f g h i] [j k]], [l m]",
    );
    assert_cycle_equality("{a b . c d . f g h}%2", "{[a b] [c d] [f g h]}%2");
    assert_cycle_equality("<a b . c d . f g h>", "<[a b] [c d] [f g h]>");
}

#[test]
fn cycle_parse_ranges_and_splits() {
    assert_eq!(parsed("0..3"), "[0 1 2 3]");
    assert_eq!(parsed("2..-1 x"), "[2 1 0 -1 x]");
    assert_eq!(parsed("a b . c"), "[[n57 n59] [n48]]");
    assert_eq!(parsed("a . . b"), "[[n57] [] [n59]]");
    assert!(parse_cycle("1..").is_err());
    assert!(parse_cycle("1..2..3").is_err());
    assert!(parse_cycle("0..99999999999").is_err());
}

#[test]
fn cycle_output_slow_subdivision() {
    assert_eq!(events_of("[0 1 2]/2", 0, &[]), vec!["0@0/1-2/3 1@2/3-1/1"]);
    assert_eq!(events_of("[0 1 2]/2", 1, &[]), vec!["2@1/3-1/1"]);
    assert_eq!(events_of("[0 1 2]/2", 2, &[]), vec!["0@0/1-2/3 1@2/3-1/1"]);
}

#[test]
fn cycle_output_numbers() {
    assert_eq!(
        events_of("[0x0] [0x1A] [0XA] [-0X5] [-0XA0] [-0Xaa]", 0, &[]),
        vec!["0@0/1-1/6 26@1/6-1/3 10@1/3-1/2 -5@1/2-2/3 -160@2/3-5/6 -170@5/6-1/1"]
    );
    assert_eq!(
        events_of("[0] [1] [1.01] [0.01] [0.] [.01]", 0, &[]),
        vec!["0@0/1-1/6 1@1/6-1/3 f1.01@1/3-1/2 f0.01@1/2-2/3 f0@2/3-5/6 f0.01@5/6-1/1"]
    );
    assert!(parse_cycle("0x80000000").is_err());
    assert_eq!(parsed("0x7fffffff -0x7FFFFFFF"), "[2147483647 -2147483647]");
    assert!(parse_cycle("0x").is_err());
    assert!(parse_cycle("0xg").is_err());
}

#[test]
fn cycle_event_accessors() {
    let step = parse_cycle("a:1 b:1:n").unwrap();
    let chs = cycle_output(&step, 0, &vec![], 16).unwrap();
    let a = &chs[0][0];
    let b = &chs[0][1];
    assert_eq!(a.string(), "a");
    assert!(matches!(a.value(), Value::Pitch(_)));
    assert_eq!((a.span().start(), a.span().end()), ((0, 2), (1, 2)));
    assert_eq!(a.length(), (2, 4));
    assert_eq!(Span::new((1, 4), (1, 2)).length(), (2, 8));
    assert_eq!(Span::new((1, 2), (1, 4)).length(), (0, 8));
    assert_eq!(a.targets().len(), 1);
    assert_eq!(b.targets().len(), 2);
    assert!(b.targets()[0].equal_key(&Target::Index(1)));
    assert!(!b.targets()[0].equal_key(&Target::Named("n".to_string(), None)));
    assert!(b.targets()[1].equal_key(&Target::Named("n".to_string(), None)));
}

fn generated(input: &str) -> Vec<String> {
    let mut cycle = Cycle::from(input).unwrap();
    cycle
        .generate()
        .unwrap()
        .iter()
        .map(|c| c.iter().map(show_event).collect::<Vec<_>>().join(" "))
        .collect()
}

fn cycles_of(input: &str, n: usize) -> Vec<Vec<String>> {
    let mut cycle = Cycle::from(input).unwrap().with_seed(0);
    (0..n)
        .map(|_| {
            cycle
                .generate()
                .unwrap()
                .iter()
                .map(|c| c.iter().map(show_event).collect::<Vec<_>>().join(" "))
                .collect()
        })
        .collect()
}

#[test]
fn expression_chains() {
    assert_cycle_equality("a*3/2", "a*1.5");
    assert_cycle_equality("[a b c d]*2*4", "[a b c d]*8");
    assert_cycle_equality("a/2/3/4/5", "a/120");
    assert_cycle_equality(
        "[a b c d e f]:[[v.2 v.5]*3]",
        "[a b c d e f]:[v.2 v.5 v.2 v.5 v.2 v.5]",
    );
    assert_cycle_equality(
        "[a:0 b:0 c:1 d:1 e:2 f:2 g:3 h:3]/2*4",
        "[a b c d e f g h]:[0 1 2 3]/2*4",
    );
    assert_cycle_equality("[a:0 b:0 c:1 d:1]/2", "[a b c d]/2:<0 1>");

    assert_eq!(
        generated("[0 1]*2:[1 2 3 4]"),
        vec!["0@0/1-1/4[#1] 1@1/4-1/2[#2] 0@1/2-3/4[#3] 1@3/4-1/1[#4]"]
    );

    assert_eq!(
        cycles_of("[a b c:v.2 d]:p.5:[v.1 v.3]:v.8/4", 4),
        vec![
            vec!["n57@0/1-1/1[p=0.5,v=0.1]"],
            vec!["n59@0/1-1/1[p=0.5,v=0.1]"],
            vec!["n48@0/1-1/1[v=0.2,p=0.5]"],
            vec!["n50@0/1-1/1[p=0.5,v=0.3]"],
        ]
    );
}

#[test]
fn event_limit() {
    assert!(Cycle::from("[[a b c d]*100]*100").unwrap().generate().is_err());
    assert!(Cycle::from("[[a b c d]*100]*100")
        .unwrap()
        .with_event_limit(0x10000)
        .generate()
        .is_ok());
}

fn assert_cycle_advancing(input: &str) {
    let seed = 0x1234;
    let mut cycle1 = Cycle::from(input).unwrap().with_seed(seed);
    let mut cycle2 = Cycle::from(input).unwrap().with_seed(seed);
    for _ in 0..10 {
        let _ = cycle1.generate().unwrap();
        cycle2.advance();
    }
    let show = |chs: Vec<Vec<Event>>| -> Vec<Vec<String>> {
        chs.iter().map(|c| c.iter().map(show_event).collect()).collect()
    };
    for _ in 0..10 {
        assert_eq!(show(cycle1.generate().unwrap()), show(cycle2.generate().unwrap()));
    }
}

#[test]
fn advancing() {
    assert_cycle_advancing("[a b c d]");
    assert_cycle_advancing("[a b], [c d]");
    assert_cycle_advancing("{a b}%2 {a b}*5");
    assert_cycle_advancing("[a b]*5 [a b]/5");
    assert_cycle_advancing("[a b c d]<c d>");
    assert_cycle_advancing("a <b c>");
    assert_cycle_advancing("[a b? c d]|[c? d?]");
    assert_cycle_advancing("[{a b}/2 c d], <c d> e? {a b}*2");
}

fn assert_generated_equality(a: &str, b: &str) {
    assert_eq!(cycles_of(a, 6), cycles_of(b, 6), "{} / {}", a, b);
}

#[test]
fn target_assign() {
    assert_generated_equality(
        "[a b c [d e f g]]:[v.5 v.3 v.2 v.1]:[p.5 p.25 p.1 p.9]",
        "[a b c [d e f g]]:v=[.5 .3 .2 .1]:p=[.5 .25 .1 .9]",
    );
    assert_eq!(
        generated("[1 2 3 4]:p=[.1 .2 .3 .4]"),
        vec!["1@0/1-1/4[p=0.1] 2@1/4-1/2[p=0.2] 3@1/2-3/4[p=0.3] 4@3/4-1/1[p=0.4]"]
    );
    assert_eq!(
        generated("[1 2 3 4]:#=[1 c4 3 0.2]"),
        vec!["1@0/1-1/4[#1] 2@1/4-1/2[#48] 3@1/2-3/4[#3] 4@3/4-1/1[#0]"]
    );
    assert_eq!(
        generated("[1 2 3 4]:long=[1 _ ~ 0.2]"),
        vec!["1@0/1-1/4[long=1] 2@1/4-1/2[long=1] 3@1/2-3/4 4@3/4-1/1[long=0.2]"]
    );
    assert_eq!(
        cycles_of("[1 2 3 4 5 6 7 8]/4:d=<.1 .2 .3 .4>:v=[<.3 .2 .1>*2/3]", 4),
        vec![
            vec!["1@0/1-1/2[d=0.1,v=0.3] 2@1/2-1/1[d=0.1,v=0.3]"],
            vec!["3@0/1-1/2[d=0.2,v=0.3] 4@1/2-1/1[d=0.2,v=0.2]"],
            vec!["5@0/1-1/2[d=0.3,v=0.2] 6@1/2-1/1[d=0.3,v=0.2]"],
            vec!["7@0/1-1/2[d=0.4,v=0.1] 8@1/2-1/1[d=0.4,v=0.1]"],
        ]
    );
}

#[test]
fn cycle_output_decimal_speeds() {
    assert_eq!(events_of("a*1.5", 0, &[]), vec!["n57@0/1-2/3 n57@2/3-1/1"]);
    assert_eq!(events_of("a*1.5", 1, &[]), vec!["n57@1/3-1/1"]);
    assert_eq!(events_of("[a b]/1.5", 0, &[]), events_of("[a b]*2/3", 0, &[]));
    assert_eq!(events_of("a*0.", 0, &[]), vec![""]);
    assert_eq!(events_of("a*-1.5", 0, &[]), vec![""]);
    assert_eq!(events_of("a/0.0", 0, &[]), vec![""]);
}

#[test]
fn span() {
    assert!(Span::new((0, 1), (1, 1)).includes(&Span::new((1, 2), (2, 1))));
    assert!(!Span::new((0, 1), (1, 2)).includes(&Span::new((1, 2), (2, 1))));
}

#[test]
fn generate() {
    assert_eq!(
        generated("[0x0] [0x1A] [0XA] [-0X5] [-0XA0] [-0Xaa]"),
        vec!["0@0/1-1/6 26@1/6-1/3 10@1/3-1/2 -5@1/2-2/3 -160@2/3-5/6 -170@5/6-1/1"]
    );
    assert_eq!(
        generated("[0] [1] [1.01] [0.01] [0.] [.01]"),
        vec!["0@0/1-1/6 1@1/6-1/3 f1.01@1/3-1/2 f0.01@1/2-2/3 f0@2/3-5/6 f0.01@5/6-1/1"]
    );
    assert_eq!(
        generated("a*[]"),
        vec![""]
    );
    assert_eq!(
        generated("[c d]/0"),
        vec![""]
    );
    assert_eq!(
        generated("[c d]*0"),
        vec![""]
    );
    assert!(Cycle::from("[c d]/1000000000000").is_err());
    assert_eq!(
        generated("[c d]/1000000"),
        vec!["n48@0/1-1/1"]
    );
    assert_eq!(
        generated("a b c d"),
        vec!["n57@0/1-1/4 n59@1/4-1/2 n48@1/2-3/4 n50@3/4-1/1"]
    );
    assert_eq!(generated("\ta\r\n\tb\nc\n d\n\n"), generated("a b c d"));
    assert_eq!(
        generated("a b [ c d ]"),
        vec!["n57@0/1-1/3 n59@1/3-2/3 n48@2/3-5/6 n50@5/6-1/1"]
    );
    assert_eq!(
        generated("[a a] [b4 b5 b6] [c0 d1 c2 d3]"),
        vec!["n57@0/1-1/6 n57@1/6-1/3 n59@1/3-4/9 n71@4/9-5/9 n83@5/9-2/3 n0@2/3-3/4 n14@3/4-5/6 n24@5/6-11/12 n38@11/12-1/1"]
    );
    assert_eq!(
        generated("[a0 [bb1 [b2 c3]]] c#4 [[[d5 D#6] E7 ] F8]"),
        vec!["n9@0/1-1/6 n22@1/6-1/4 n35@1/4-7/24 n36@7/24-1/3 n49@1/3-2/3 n62@2/3-17/24 n75@17/24-3/4 n88@3/4-5/6 n101@5/6-1/1"]
    );
    assert_eq!(
        generated("[R [e [n o]]] , [[[i s] e ] _]"),
        vec!["R@0/1-1/2 n52@1/2-3/4 n@3/4-7/8 o@7/8-1/1", "i@0/1-1/8 s@1/8-1/4 n52@1/4-1/1"]
    );
    assert_eq!(
        cycles_of("<a b c d>", 4),
        vec![
            vec!["n57@0/1-1/1"],
            vec!["n59@0/1-1/1"],
            vec!["n48@0/1-1/1"],
            vec!["n50@0/1-1/1"],
        ] as Vec<Vec<&str>>
    );
    assert_eq!(
        cycles_of("<a ~ ~ a0> <b <c d>>", 4),
        vec![
            vec!["n57@0/1-1/2 n59@1/2-1/1"],
            vec!["n48@1/2-1/1"],
            vec!["n59@1/2-1/1"],
            vec!["n9@0/1-1/2 n50@1/2-1/1"],
        ] as Vec<Vec<&str>>
    );
    assert_eq!(
        cycles_of("<<a a8> b,  <c [d e]>>", 3),
        vec![
            vec!["n57@0/1-1/1", "n48@0/1-1/1"],
            vec!["n59@0/1-1/1", "n50@0/1-1/2 n52@1/2-1/1"],
            vec!["n105@0/1-1/1", "n48@0/1-1/1"],
        ] as Vec<Vec<&str>>
    );
    assert_eq!(
        cycles_of("{-3 -2 -1 0 1 2 3}%4", 3),
        vec![
            vec!["-3@0/1-1/4 -2@1/4-1/2 -1@1/2-3/4 0@3/4-1/1"],
            vec!["1@0/1-1/4 2@1/4-1/2 3@1/2-3/4 -3@3/4-1/1"],
            vec!["-2@0/1-1/4 -1@1/4-1/2 0@1/2-3/4 1@3/4-1/1"],
        ] as Vec<Vec<&str>>
    );
    assert_eq!(
        cycles_of("{<0 0 d#8:test> 1 <c d e>:0xB [<.5 0.95> 1.]}%3", 3),
        vec![
            vec!["0@0/1-1/3 1@1/3-2/3 n48@2/3-1/1[#11]"],
            vec!["f0.5@0/1-1/6 f1@1/6-1/3 0@1/3-2/3 1@2/3-1/1"],
            vec!["n50@0/1-1/3[#11] f0.95@1/3-1/2 f1@1/2-2/3 n99@2/3-1/1[test]"],
        ] as Vec<Vec<&str>>
    );
    assert_eq!(
        generated("[1 middle _] {}%42 [] <>"),
        vec!["1@0/1-1/12 middle@1/12-1/4 ~@1/4-1/1"]
    );
    assert_eq!(
        generated("[1 __ 2] 3"),
        vec!["1@0/1-3/8 2@3/8-1/2 3@1/2-1/1"]
    );
    assert_eq!(
        cycles_of("<some_name another_one c4'chord c4'-^7 c6a_name>", 5),
        vec![
            vec!["some_name@0/1-1/1"],
            vec!["another_one@0/1-1/1"],
            vec!["n48'chord@0/1-1/1"],
            vec!["n48'-^7@0/1-1/1"],
            vec!["c6a_name@0/1-1/1"],
        ] as Vec<Vec<&str>>
    );
    assert_eq!(
        cycles_of("[1 2] [3 4,[5 6]:42]", 1),
        vec![
            vec!["1@0/1-1/4 2@1/4-1/2 3@1/2-3/4 4@3/4-1/1", "5@1/2-3/4[#42] 6@3/4-1/1[#42]"],
        ] as Vec<Vec<&str>>
    );
    assert_eq!(
        generated("1 second*2 eb3*3 [32 32]*4"),
        vec!["1@0/1-1/4 second@1/4-3/8 second@3/8-1/2 n39@1/2-7/12 n39@7/12-2/3 n39@2/3-3/4 32@3/4-25/32 32@25/32-13/16 32@13/16-27/32 32@27/32-7/8 32@7/8-29/32 32@29/32-15/16 32@15/16-31/32 32@31/32-1/1"]
    );
    assert_eq!(
        cycles_of("tresillo(6,8), outside(4,11)", 1),
        vec![
            vec!["tresillo@0/1-1/8 ~@1/8-1/4 tresillo@1/4-3/8 tresillo@3/8-1/2 tresillo@1/2-5/8 ~@5/8-3/4 tresillo@3/4-7/8 tresillo@7/8-1/1", "outside@0/1-1/11 ~@1/11-3/11 outside@3/11-4/11 ~@4/11-6/11 outside@6/11-7/11 ~@7/11-9/11 outside@9/11-10/11 ~@10/11-1/1"],
        ] as Vec<Vec<&str>>
    );
    assert_eq!(
        cycles_of("[<1 10> <2 20>:a](2,5)", 2),
        vec![
            vec!["1@0/1-1/10 2@1/10-1/5[a] ~@1/5-2/5 1@2/5-1/2 2@1/2-3/5[a] ~@3/5-1/1"],
            vec!["10@0/1-1/10 20@1/10-1/5[a] ~@1/5-2/5 10@2/5-1/2 20@1/2-3/5[a] ~@3/5-1/1"],
        ] as Vec<Vec<&str>>
    );
    assert_eq!(
        generated("1!2 3 [4!3 5]"),
        vec!["1@0/1-1/4 1@1/4-1/2 3@1/2-3/4 4@3/4-13/16 4@13/16-7/8 4@7/8-15/16 5@15/16-1/1"]
    );
    assert_eq!(
        cycles_of("[0 1]!2 <a b>!2", 2),
        vec![
            vec!["0@0/1-1/8 1@1/8-1/4 0@1/4-3/8 1@3/8-1/2 n57@1/2-3/4 n57@3/4-1/1"],
            vec!["0@0/1-1/8 1@1/8-1/4 0@1/4-3/8 1@3/8-1/2 n59@1/2-3/4 n59@3/4-1/1"],
        ] as Vec<Vec<&str>>
    );
    assert_eq!(
        cycles_of("[0 1]/2", 2),
        vec![
            vec!["0@0/1-1/1"],
            vec!["1@0/1-1/1"],
        ] as Vec<Vec<&str>>
    );
    assert_eq!(
        cycles_of("[0 1]*2.5", 2),
        vec![
            vec!["0@0/1-1/5 1@1/5-2/5 0@2/5-3/5 1@3/5-4/5 0@4/5-1/1"],
            vec!["1@0/1-1/5 0@1/5-2/5 1@2/5-3/5 0@3/5-4/5 1@4/5-1/1"],
        ] as Vec<Vec<&str>>
    );
    assert_eq!(
        generated("a:1 b:target"),
        vec!["n57@0/1-1/2[#1] n59@1/2-1/1[target]"]
    );
    assert_eq!(
        cycles_of("a:<1 2>", 2),
        vec![
            vec!["n57@0/1-1/1[#1]"],
            vec!["n57@0/1-1/1[#2]"],
        ] as Vec<Vec<&str>>
    );
    assert_eq!(
        cycles_of("a:1:2:Target", 1),
        vec![
            vec!["n57@0/1-1/1[#1,#2,Target]"],
        ] as Vec<Vec<&str>>
    );
    assert_eq!(
        cycles_of("[a:1:2]:<3 4>", 2),
        vec![
            vec!["n57@0/1-1/1[#1,#2,#3]"],
            vec!["n57@0/1-1/1[#1,#2,#4]"],
        ] as Vec<Vec<&str>>
    );
    assert_eq!(
        generated("[a b c d]:[1 2 3]"),
        vec!["n57@0/1-1/4[#1] n59@1/4-1/2[#1,#2] n48@1/2-3/4[#2,#3] n50@3/4-1/1[#3]"]
    );
    assert_eq!(
        cycles_of("[a [b:<~ 7> b:<8 9>]]:[1 [2 3], 4]", 2),
        vec![
            vec!["n57@0/1-1/2[#1] n59@1/2-3/4[#2] n59@3/4-1/1[#8,#3]", "n57@0/1-1/2[#4] n59@1/2-3/4[#4] n59@3/4-1/1[#8,#4]"],
            vec!["n57@0/1-1/2[#1] n59@1/2-3/4[#7,#2] n59@3/4-1/1[#9,#3]", "n57@0/1-1/2[#4] n59@1/2-3/4[#7,#4] n59@3/4-1/1[#9,#4]"],
        ] as Vec<Vec<&str>>
    );
    assert_eq!(
        cycles_of("[a b]:<1 target>", 2),
        vec![
            vec!["n57@0/1-1/2[#1] n59@1/2-1/1[#1]"],
            vec!["n57@0/1-1/2[target] n59@1/2-1/1[target]"],
        ] as Vec<Vec<&str>>
    );
    assert_eq!(
        cycles_of("[a:1 b]:<3 4>", 2),
        vec![
            vec!["n57@0/1-1/2[#1,#3] n59@1/2-1/1[#3]"],
            vec!["n57@0/1-1/2[#1,#4] n59@1/2-1/1[#4]"],
        ] as Vec<Vec<&str>>
    );
    assert_eq!(
        generated("a:1 b:v0.1:v1.0:p1.0"),
        vec!["n57@0/1-1/2[#1] n59@1/2-1/1[v=0.1,p=1]"]
    );
    assert_eq!(
        generated("a:1:#1 b:#1:1"),
        vec!["n57@0/1-1/2[#1] n59@1/2-1/1[#1]"]
    );
    assert_eq!(
        generated("c(3,8,9)"),
        vec!["n48@1/4-3/8 ~@3/8-5/8 n48@5/8-3/4 ~@3/4-7/8 n48@7/8-1/1"]
    );
    assert_eq!(
        cycles_of("[0 1 2]/2", 3),
        vec![
            vec!["0@0/1-2/3 1@2/3-1/1"],
            vec!["2@1/3-1/1"],
            vec!["0@0/1-2/3 1@2/3-1/1"],
        ] as Vec<Vec<&str>>
    );
    assert_eq!(
        cycles_of("0*<1 2>", 2),
        vec![
            vec!["0@0/1-1/1"],
            vec!["0@0/1-1/2 0@1/2-1/1"],
        ] as Vec<Vec<&str>>
    );
    assert_eq!(
        generated("0*[4 3]"),
        vec!["0@0/1-1/4 0@1/4-1/2 0@2/3-1/1"]
    );
    assert_eq!(
        cycles_of("{0 1 2 3}%<2 3>", 2),
        vec![
            vec!["0@0/1-1/2 1@1/2-1/1"],
            vec!["3@0/1-1/3 0@1/3-2/3 1@2/3-1/1"],
        ] as Vec<Vec<&str>>
    );
}

#[test]
fn seeded_cycles_repeat_their_choices() {
    let text = "[a | b | c] [d e]? <f g>|h";
    let mut c1 = Cycle::from(text).unwrap().with_seed(7);
    let mut c2 = Cycle::from(text).unwrap().with_seed(7);
    let show = |chs: Vec<Vec<Event>>| -> Vec<Vec<String>> {
        chs.iter().map(|c| c.iter().map(show_event).collect()).collect()
    };
    for _ in 0..8 {
        assert_eq!(show(c1.generate().unwrap()), show(c2.generate().unwrap()));
    }
    let mut long = Cycle::from("a*100?").unwrap().with_seed(1);
    assert!(long.generate().is_ok());
    let mut runs: Vec<Vec<Vec<String>>> = vec![];
    for seed in 0..8 {
        let mut c = Cycle::from("[a | b | c | d]*8").unwrap().with_seed(seed);
        runs.push(show(c.generate().unwrap()));
    }
    assert!(runs.iter().any(|r| r != &runs[0]));
}
