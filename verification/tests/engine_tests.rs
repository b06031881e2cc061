use plc_poll::catalog::SymbolCatalog;
use plc_poll::engine::{Action, Event, PollEngine};
use plc_poll::lines::{format_read_line, format_sleep_line, format_write_line};

fn catalog(reads: &[&str], writes: &[&str]) -> SymbolCatalog {
    SymbolCatalog {
        read_symbols: reads.iter().map(|s| s.to_string()).collect(),
        write_symbols: writes.iter().map(|s| s.to_string()).collect(),
    }
}

#[test]
fn parsed_catalog_drives_the_cycle() {
    let text = "{\"read_symbols\": [\"A\", \"B\"], \"write_symbols\": [\"C\"]}";
    let parsed = plc_poll::catalog::parse_catalog(text).expect("well-formed catalog");
    let mut engine = PollEngine::new(parsed, 100);
    let a = engine.step(Event::StateReported { running: true });
    assert_eq!(a, Action::ReadSymbol { symbol: "A".to_string() });
    let a = engine.step(Event::ReadFinished { ok: true });
    assert_eq!(a, Action::ReadSymbol { symbol: "B".to_string() });
    let a = engine.step(Event::ReadFinished { ok: true });
    assert!(matches!(a, Action::WriteSymbol { .. }));
}

#[test]
fn starts_with_readiness_query() {
    let engine = PollEngine::new(catalog(&["A"], &["C"]), 100);
    assert_eq!(engine.current_action(), Action::QueryState);
}

#[test]
fn one_cycle_reads_then_writes_then_sleeps() {
    let mut engine = PollEngine::new(catalog(&["A", "B"], &["C"]), 250);
    assert_eq!(engine.current_action(), Action::QueryState);

    let a = engine.step(Event::StateReported { running: true });
    assert_eq!(a, Action::ReadSymbol { symbol: "A".to_string() });

    let a = engine.step(Event::ReadFinished { ok: true });
    assert_eq!(a, Action::ReadSymbol { symbol: "B".to_string() });

    let a = engine.step(Event::ReadFinished { ok: true });
    match a {
        Action::WriteSymbol { symbol, value } => {
            assert_eq!(symbol, "C".to_string());
            assert!(value <= 100);
        },
        other => panic!("expected a write, got {:?}", other),
    }

    let a = engine.step(Event::WriteFinished { ok: true });
    assert_eq!(a, Action::Sleep { ms: 250 });

    // The next cycle begins with the first read again.
    let a = engine.step(Event::SleepFinished);
    assert_eq!(a, Action::ReadSymbol { symbol: "A".to_string() });
}

#[test]
fn mock_device_cycle_emits_expected_lines() {
    // A mock device where A = 5 and B = 7; one cycle against it.
    let lookup = |symbol: &str| -> u32 {
        match symbol {
            "A" => 5,
            "B" => 7,
            other => panic!("unknown symbol {}", other),
        }
    };
    let mut engine = PollEngine::new(catalog(&["A", "B"], &["C"]), 100);
    let mut lines: Vec<String> = Vec::new();
    let mut action = engine.current_action();
    assert_eq!(action, Action::QueryState);
    action = engine.step(Event::StateReported { running: true });
    loop {
        let event = match &action {
            Action::ReadSymbol { symbol } => {
                let value = lookup(symbol);
                lines.push(format_read_line(symbol, value));
                Event::ReadFinished { ok: true }
            },
            Action::WriteSymbol { symbol, value } => {
                assert!(*value <= 100);
                lines.push(format_write_line(*value, symbol));
                Event::WriteFinished { ok: true }
            },
            Action::Sleep { ms } => {
                lines.push(format_sleep_line(*ms));
                break;
            },
            other => panic!("unexpected action {:?}", other),
        };
        action = engine.step(event);
    }
    assert_eq!(lines.len(), 4);
    assert_eq!(lines[0], "A value is 5");
    assert_eq!(lines[1], "B value is 7");
    assert!(lines[2].starts_with("Wrote "));
    assert!(lines[2].ends_with(" to C"));
    assert_eq!(lines[3], "Sleeping 100 ms");
}

#[test]
fn not_running_stops_before_any_read_or_write() {
    let mut engine = PollEngine::new(catalog(&["A"], &["C"]), 100);
    let a = engine.step(Event::StateReported { running: false });
    assert_eq!(a, Action::Stop);
    // Whatever arrives later, the engine never asks for a read or a write.
    assert_eq!(engine.step(Event::ReadFinished { ok: true }), Action::Stop);
    assert_eq!(engine.step(Event::SleepFinished), Action::Stop);
}

#[test]
fn failed_read_stops_the_cycle() {
    // A symbol that cannot be resolved or read is fatal by design: the
    // engine stops instead of skipping to the next symbol.
    let mut engine = PollEngine::new(catalog(&["A", "B"], &[]), 100);
    let a = engine.step(Event::StateReported { running: true });
    assert_eq!(a, Action::ReadSymbol { symbol: "A".to_string() });
    let a = engine.step(Event::ReadFinished { ok: false });
    assert_eq!(a, Action::Stop);
    assert_eq!(engine.step(Event::ReadFinished { ok: true }), Action::Stop);
}

#[test]
fn failed_write_stops_the_cycle() {
    let mut engine = PollEngine::new(catalog(&[], &["C"]), 100);
    let a = engine.step(Event::StateReported { running: true });
    assert!(matches!(a, Action::WriteSymbol { .. }));
    let a = engine.step(Event::WriteFinished { ok: false });
    assert_eq!(a, Action::Stop);
}

#[test]
fn empty_catalog_only_sleeps() {
    let mut engine = PollEngine::new(catalog(&[], &[]), 42);
    let a = engine.step(Event::StateReported { running: true });
    assert_eq!(a, Action::Sleep { ms: 42 });
    let a = engine.step(Event::SleepFinished);
    assert_eq!(a, Action::Sleep { ms: 42 });
}

#[test]
fn write_only_catalog_skips_reading() {
    let mut engine = PollEngine::new(catalog(&[], &["C", "D"]), 10);
    let a = engine.step(Event::StateReported { running: true });
    match a {
        Action::WriteSymbol { symbol, .. } => assert_eq!(symbol, "C".to_string()),
        other => panic!("expected a write, got {:?}", other),
    }
    let a = engine.step(Event::WriteFinished { ok: true });
    match a {
        Action::WriteSymbol { symbol, .. } => assert_eq!(symbol, "D".to_string()),
        other => panic!("expected a write, got {:?}", other),
    }
    let a = engine.step(Event::WriteFinished { ok: true });
    assert_eq!(a, Action::Sleep { ms: 10 });
}

#[test]
fn repeated_cycles_visit_identical_symbols() {
    // Idempotence: against an unchanging device, every cycle asks for the
    // same reads and writes in the same order.
    let mut engine = PollEngine::new(catalog(&["A", "B"], &["C"]), 5);
    let mut first_cycle: Vec<String> = Vec::new();
    let mut second_cycle: Vec<String> = Vec::new();
    let mut action = engine.step(Event::StateReported { running: true });
    for cycle in [0usize, 1] {
        loop {
            let event = match &action {
                Action::ReadSymbol { symbol } => {
                    if cycle == 0 {
                        first_cycle.push(format!("read {}", symbol));
                    } else {
                        second_cycle.push(format!("read {}", symbol));
                    }
                    Event::ReadFinished { ok: true }
                },
                Action::WriteSymbol { symbol, .. } => {
                    if cycle == 0 {
                        first_cycle.push(format!("write {}", symbol));
                    } else {
                        second_cycle.push(format!("write {}", symbol));
                    }
                    Event::WriteFinished { ok: true }
                },
                Action::Sleep { .. } => {
                    action = engine.step(Event::SleepFinished);
                    break;
                },
                other => panic!("unexpected action {:?}", other),
            };
            action = engine.step(event);
        }
    }
    assert_eq!(first_cycle, vec!["read A", "read B", "write C"]);
    assert_eq!(first_cycle, second_cycle);
}
