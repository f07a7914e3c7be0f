use mixtor::correlation_attack::{
    adversary_won, aligned_series, can_number_bins, distinct_conn_ids, doubled_ranks, flow_series,
    flow_spans, flow_totals, frame_sizes, link_flows, overall_verdict, parse_reader,
    resolve_directions, skip_first, worst_of, EventNames, LogRecord,
};
use mixtor::lab_log::{after_row, header_line, row_line};
use mixtor::self_test::cdf_steps;

const BIN: u128 = 100_000_000;

fn rec(nanos: u128, event: &str, conn: u64, bytes: usize, kind: &str) -> LogRecord {
    LogRecord {
        unix_nanos: nanos,
        role: "server".to_string(),
        event: event.to_string(),
        conn_id: conn,
        seq: 0,
        bytes,
        kind: kind.to_string(),
    }
}

fn pearson(a: &[f64], b: &[f64]) -> f64 {
    let n = a.len() as f64;
    let ma = a.iter().sum::<f64>() / n;
    let mb = b.iter().sum::<f64>() / n;
    let num: f64 = a.iter().zip(b).map(|(x, y)| (x - ma) * (y - mb)).sum();
    let da: f64 = a.iter().map(|x| (x - ma) * (x - ma)).sum();
    let db: f64 = b.iter().map(|y| (y - mb) * (y - mb)).sum();
    let den = da.sqrt() * db.sqrt();
    if den == 0.0 {
        0.0
    } else {
        num / den
    }
}

fn floats(xs: &[u128]) -> Vec<f64> {
    xs.iter().map(|&x| x as f64).collect()
}

#[test]
fn parses_header_and_rows() {
    let csv = "unix_nanos,role,event,conn_id,seq,bytes,kind\n\
               1000,server,server_wire_input,1,0,514,real\n\
               2000,server,server_wire_input,1,1,514,dummy\n";
    let recs = parse_reader(csv.as_bytes());
    assert_eq!(recs.len(), 2);
    assert_eq!(recs[0].bytes, 514);
    assert_eq!(recs[1].kind, "dummy");
}

#[test]
fn malformed_lines_are_skipped() {
    let csv = "unix_nanos,role,event,conn_id,seq,bytes,kind\n\
               not,a,valid,row\n\
               3000,server,server_wire_input,1,0,514,real\n";
    let recs = parse_reader(csv.as_bytes());
    assert_eq!(recs.len(), 1);
}

#[test]
fn logs_are_read_as_far_as_they_go() {
    let csv = b"1,s,e,1,2,3,real\r\n\n  \n\xff\xfe,bad\nunix_nanos,x\n 7 , s , e , +8 ,9, 10 , k , more\n4,s,e,1,2";
    let recs = parse_reader(csv);
    assert_eq!(recs.len(), 2);
    assert_eq!(recs[0].kind, "real");
    assert_eq!(recs[1].unix_nanos, 7);
    assert_eq!(recs[1].conn_id, 8);
    assert_eq!((recs[1].seq, recs[1].bytes), (9, 10));
    assert_eq!((recs[1].role.as_str(), recs[1].event.as_str()), ("s", "e"));
    assert_eq!(recs[1].kind, "k");
    assert!(parse_reader(b"").is_empty());
    assert!(parse_reader(b"-1,s,e,1,2,3,k\n1,s,e,18446744073709551616,2,3,k\n").is_empty());
}

#[test]
fn rows_read_back_as_written() {
    let mut log = header_line();
    log.push('\n');
    log.push_str(&row_line(u128::MAX, "client", "client_input", u64::MAX, 3, 514, "real"));
    log.push('\n');
    assert_eq!(
        log,
        "unix_nanos,role,event,conn_id,seq,bytes,kind\n\
         340282366920938463463374607431768211455,client,client_input,18446744073709551615,3,514,real\n"
    );
    let recs = parse_reader(log.as_bytes());
    assert_eq!(recs.len(), 1);
    assert_eq!(recs[0].unix_nanos, u128::MAX);
    assert_eq!(recs[0].conn_id, u64::MAX);
    assert_eq!(recs[0].event, "client_input");
}

#[test]
fn writers_flush_now_and_then() {
    assert_eq!(after_row(0), (false, 1));
    assert_eq!(after_row(1022), (false, 1023));
    assert_eq!(after_row(1023), (true, 0));
}

fn size_attack(recs: &[LogRecord]) -> (f64, f64) {
    let (reals, dummies) = frame_sizes(recs, &EventNames::server()).unwrap();
    let (na, nb) = (reals.len() as f64, dummies.len() as f64);
    let mut ks = 0.0f64;
    let mut best = 0.5f64;
    for s in cdf_steps(&reals, &dummies) {
        ks = ks.max((s.at_most_a as f64 / na - s.at_most_b as f64 / nb).abs());
        let acc = 0.5 * (s.at_most_a as f64 / na + (nb - s.at_most_b as f64) / nb);
        best = best.max(acc).max(1.0 - acc);
    }
    (ks, best)
}

#[test]
fn ks_zero_for_identical_sizes() {
    let mut recs = Vec::new();
    for i in 0u128..50 {
        recs.push(rec(i * 1000, "server_wire_input", 1, 514, "real"));
        recs.push(rec(i * 1000 + 500, "server_wire_input", 1, 514, "dummy"));
    }
    let (ks, accuracy) = size_attack(&recs);
    assert!(ks < 1e-9, "ks should be 0, got {ks}");
    assert!((accuracy - 0.5).abs() < 1e-9);
}

#[test]
fn ks_detects_size_difference() {
    let mut recs = Vec::new();
    for i in 0u128..50 {
        recs.push(rec(i * 1000, "server_wire_input", 1, 1200, "real"));
        recs.push(rec(i * 1000 + 500, "server_wire_input", 1, 65535, "dummy"));
    }
    let (ks, accuracy) = size_attack(&recs);
    assert!(ks > 0.9, "ks {ks}");
    assert!(accuracy > 0.99);
}

#[test]
fn sizes_need_both_kinds_on_the_wire() {
    let e = EventNames::server();
    assert!(frame_sizes(&[rec(1, "server_wire_input", 1, 5, "real")], &e).is_none());
    let recs = vec![
        rec(1, "server_wire_input", 1, 5, "real"),
        rec(2, "server_real_output", 1, 6, "real"),
        rec(3, "server_wire_input", 1, 7, "dummy"),
        rec(4, "server_wire_input", 1, 8, "odd"),
    ];
    assert_eq!(frame_sizes(&recs, &e), Some((vec![5], vec![7])));
}

#[test]
fn volume_attack_flags_correlated_cover() {
    let mut recs = Vec::new();
    for b in 0..40u128 {
        if (b / 5) % 2 == 0 {
            for k in 0u128..4 {
                let t = b * BIN + k * 1000;
                recs.push(rec(t, "server_wire_input", 1, 514, "real"));
                recs.push(rec(t + 10, "server_real_output", 1, 500, "real"));
            }
        }
    }
    let (wire, real) = aligned_series(&recs, &EventNames::server(), BIN, Some(1)).unwrap();
    let r = pearson(&floats(&wire), &floats(&real));
    assert!(r.abs() > 0.5, "pearson {r}");
    assert_eq!(wire.len(), 35);
    assert_eq!((wire[0], real[0]), (4 * 514, 4 * 500));
    assert_eq!((wire[5], real[5]), (0, 0));
}

#[test]
fn volume_attack_clears_constant_cover() {
    let mut recs = Vec::new();
    for b in 0..40u128 {
        for k in 0u128..4 {
            recs.push(rec(b * BIN + k * 1000, "server_wire_input", 1, 514, "real"));
        }
        if (b / 5) % 2 == 0 {
            recs.push(rec(b * BIN + 50, "server_real_output", 1, 500, "real"));
        }
    }
    let (wire, real) = aligned_series(&recs, &EventNames::server(), BIN, None).unwrap();
    let r = pearson(&floats(&wire), &floats(&real));
    assert!(r.abs() <= 0.5, "pearson {r}");
}

#[test]
fn linking_attack_links_distinct_flows() {
    let mut recs = Vec::new();
    let pat1 = [1, 1, 1, 0, 0, 1, 0, 1, 0, 0, 1, 1, 0, 1, 0, 0, 1, 0, 1, 1];
    let pat2 = [1, 0, 0, 1, 1, 0, 1, 1, 0, 1, 0, 0, 1, 0, 1, 1, 0, 1, 0, 0];
    for (b, (&a, &c)) in pat1.iter().zip(pat2.iter()).enumerate() {
        let t = b as u128 * BIN;
        if a == 1 {
            recs.push(rec(t, "server_wire_input", 1, 514, "real"));
            recs.push(rec(t + 10, "server_real_output", 1, 500, "real"));
        }
        if c == 1 {
            recs.push(rec(t, "server_wire_input", 2, 514, "real"));
            recs.push(rec(t + 10, "server_real_output", 2, 500, "real"));
        }
    }
    let events = EventNames::server();
    let conn_ids = distinct_conn_ids(&recs, &events);
    assert_eq!(conn_ids, vec![1, 2]);
    let flows = flow_series(&recs, &events, BIN, &conn_ids).unwrap();
    let scores: Vec<Vec<u64>> = flows
        .iter()
        .map(|(wire, _)| {
            flows
                .iter()
                .map(|(_, real)| pearson(&floats(wire), &floats(real)).abs().to_bits())
                .collect()
        })
        .collect();
    let linking = link_flows(&conn_ids, &scores);
    assert_eq!(linking.guesses.len(), 2);
    assert_eq!(linking.correct, 2);
    assert!(linking.beats_chance);
}

#[test]
fn linking_takes_the_first_of_the_best() {
    let ids = [4, 5, 6];
    let scores = vec![vec![2, 2, 1], vec![9, 9, 9], vec![0, 0, 3]];
    let linking = link_flows(&ids, &scores);
    assert_eq!(linking.guesses, vec![(4, 4, true), (5, 4, false), (6, 6, true)]);
    assert_eq!(linking.correct, 2);
    assert!(linking.beats_chance);
    let poor = link_flows(&ids, &vec![vec![1, 0, 0], vec![1, 0, 0], vec![1, 0, 0]]);
    assert_eq!(poor.correct, 1);
    assert!(!poor.beats_chance);
    let half = link_flows(&[1, 2, 3, 4], &vec![
        vec![1, 0, 0, 0],
        vec![0, 1, 0, 0],
        vec![1, 0, 0, 0],
        vec![1, 0, 0, 0],
    ]);
    assert_eq!(half.correct, 2);
    assert!(!half.beats_chance, "half is not more than half");
}

#[test]
fn total_volume_attack_flags_proportional_totals() {
    let mut recs = Vec::new();
    for id in 1..=4u64 {
        for k in 0..(id * 5) {
            let t = id as u128 * 1_000 + k as u128;
            recs.push(rec(t, "server_wire_input", id, 514, "real"));
            recs.push(rec(t, "server_real_output", id, 500, "real"));
        }
    }
    let events = EventNames::server();
    let ids = distinct_conn_ids(&recs, &events);
    let totals = flow_totals(&recs, &events, &ids).unwrap();
    assert_eq!(totals[0], (1, 5 * 514, 5 * 500));
    assert_eq!(totals[3], (4, 20 * 514, 20 * 500));
    let wire: Vec<u128> = totals.iter().map(|t| t.1).collect();
    let real: Vec<u128> = totals.iter().map(|t| t.2).collect();
    let spearman =
        pearson(&floats(&doubled_ranks(&wire)), &floats(&doubled_ranks(&real)));
    assert!(pearson(&floats(&wire), &floats(&real)).abs() > 0.5);
    assert!(spearman.abs() > 0.5);
}

#[test]
fn total_volume_attack_clears_constant_wire_totals() {
    let mut recs = Vec::new();
    for id in 1..=4u64 {
        for k in 0u128..20 {
            recs.push(rec(1_000 + k, "server_wire_input", id, 514, "real"));
        }
        for k in 0..(id * 3) {
            recs.push(rec(1_001 + k as u128, "server_real_output", id, 500, "real"));
        }
    }
    let events = EventNames::server();
    let ids = distinct_conn_ids(&recs, &events);
    let totals = flow_totals(&recs, &events, &ids).unwrap();
    assert!(totals.iter().all(|t| t.1 == 20 * 514));
    assert_eq!(totals.iter().map(|t| t.2).collect::<Vec<u128>>(), vec![1500, 3000, 4500, 6000]);
}

#[test]
fn totals_need_three_flows_with_real_traffic() {
    let events = EventNames::server();
    let mut recs = vec![
        rec(1, "server_real_output", 1, 1, "real"),
        rec(1, "server_real_output", 2, 1, "real"),
        rec(1, "server_wire_input", 3, 1, "real"),
    ];
    assert!(flow_totals(&recs, &events, &[1, 2]).is_none());
    assert!(flow_totals(&recs, &events, &[1, 2, 3]).is_none());
    recs.push(rec(1, "server_real_output", 3, 2, "real"));
    assert_eq!(
        flow_totals(&recs, &events, &[1, 2, 3]),
        Some(vec![(1, 0, 1), (2, 0, 1), (3, 1, 2)])
    );
}

#[test]
fn spearman_detects_monotone_nonlinear() {
    let a: Vec<u128> = vec![1, 2, 3, 4, 5];
    let b: Vec<u128> = vec![1, 4, 9, 16, 25];
    let rank = pearson(&floats(&doubled_ranks(&a)), &floats(&doubled_ranks(&b)));
    assert!((rank - 1.0).abs() < 1e-9);
    assert!(pearson(&floats(&a), &floats(&b)) < 1.0);
    assert_eq!(doubled_ranks(&b), vec![0, 2, 4, 6, 8]);
    assert_eq!(doubled_ranks(&[7, 3, 7, 1]), vec![5, 2, 5, 0]);
}

#[test]
fn duration_leak_flags_matching_spans() {
    let mut recs = Vec::new();
    for id in 1..=2u64 {
        recs.push(rec(0, "server_wire_input", id, 514, "real"));
        recs.push(rec(1_000_000_000, "server_wire_input", id, 514, "dummy"));
        recs.push(rec(10_000_000, "server_real_output", id, 500, "real"));
        recs.push(rec(990_000_000, "server_real_output", id, 500, "real"));
    }
    let events = EventNames::server();
    let ids = distinct_conn_ids(&recs, &events);
    let spans = flow_spans(&recs, &events, &ids);
    assert_eq!(spans, vec![(1, 1_000_000_000, 980_000_000), (2, 1_000_000_000, 980_000_000)]);
    let gap = (spans[0].1 - spans[0].2) as f64 / spans[0].2 as f64;
    assert!(gap < 0.20, "rel gap {gap}");
    recs.pop();
    assert_eq!(flow_spans(&recs, &events, &ids).len(), 1);
}

#[test]
fn series_share_a_grid() {
    let e = EventNames::client();
    let recs = vec![
        rec(1_000, "client_wire_output", 9, 10, "real"),
        rec(1_099, "client_input", 9, 20, "real"),
        rec(1_100, "client_wire_output", 8, 30, "real"),
        rec(1_350, "other", 9, 40, "real"),
        rec(1_299, "client_input", 8, 50, "real"),
    ];
    assert_eq!(
        aligned_series(&recs, &e, 100, None),
        Some((vec![10, 30, 0], vec![20, 0, 50]))
    );
    assert_eq!(aligned_series(&recs, &e, 100, Some(9)), Some((vec![10], vec![20])));
    assert_eq!(aligned_series(&recs, &e, 0, None), None);
    assert_eq!(aligned_series(&recs, &e, 100, Some(1)), None);
    assert_eq!(distinct_conn_ids(&recs, &e), vec![8, 9]);
    let flows = flow_series(&recs, &e, 100, &[8, 9]).unwrap();
    assert_eq!(flows[0], (vec![0, 30, 0], vec![0, 0, 50]));
    assert_eq!(flows[1], (vec![10, 0, 0], vec![20, 0, 0]));
    assert!(flow_series(&recs, &e, 100, &[8]).is_none());
}

#[test]
fn the_worst_flow_is_the_first_with_the_highest_score() {
    assert_eq!(worst_of(&[]), None);
    assert_eq!(worst_of(&[None, None]), None);
    assert_eq!(worst_of(&[None, Some(3), Some(5), Some(5), None]), Some(2));
    assert_eq!(worst_of(&[Some(0)]), Some(0));
}

#[test]
fn any_scored_attack_wins() {
    assert!(!adversary_won(None, None, &[], None, None));
    assert!(!adversary_won(Some(false), Some(false), &[false, false], Some(false), Some(false)));
    assert!(adversary_won(Some(true), None, &[], None, None));
    assert!(adversary_won(None, Some(true), &[], None, None));
    assert!(adversary_won(None, None, &[false, true], None, None));
    assert!(adversary_won(None, None, &[], Some(true), None));
    assert!(adversary_won(None, None, &[], None, Some(true)));
}

#[test]
fn the_beginning_of_a_log_can_be_skipped() {
    let recs = vec![
        rec(500, "a", 1, 1, "real"),
        rec(100, "b", 1, 2, "real"),
        rec(200, "c", 1, 3, "real"),
    ];
    let kept = skip_first(recs, 100);
    assert_eq!(kept.iter().map(|r| r.bytes).collect::<Vec<usize>>(), vec![1, 3]);
    assert!(skip_first(Vec::new(), 7).is_empty());
}

#[test]
fn directions_are_resolved() {
    let both = resolve_directions("server", "both").ok().unwrap();
    assert_eq!(both.len(), 2);
    assert_eq!(both[0].label, "uplink (client→server)");
    assert_eq!(both[0].events, EventNames::server());
    assert_eq!(both[1].label, "downlink (server→client)");
    assert_eq!(both[1].events, EventNames::server_return());
    let up = resolve_directions("client", "up").ok().unwrap();
    assert_eq!(up.len(), 1);
    assert_eq!(up[0].events, EventNames::client());
    let down = resolve_directions("client", "down").ok().unwrap();
    assert_eq!(down[0].events, EventNames::client_return());
    assert_eq!(
        resolve_directions("left", "sideways").err().unwrap(),
        "--side must be server or client, got left"
    );
    assert_eq!(
        resolve_directions("server", "sideways").err().unwrap(),
        "--direction must be up, down or both, got sideways"
    );
}

#[test]
fn bins_beyond_counting_are_noticed() {
    let events = EventNames::server();
    let records = vec![
        rec(0, &events.wire, 1, 1, "real"),
        rec(u128::MAX, &events.real, 2, 1, "real"),
    ];
    assert!(!can_number_bins(&records, &events, None, 1));
    assert!(can_number_bins(&records, &events, Some(1), 1));
    assert!(can_number_bins(&records, &events, None, u128::MAX));
    assert!(can_number_bins(&records, &events, None, 0));
    assert!(can_number_bins(&[], &events, None, 1));
}

#[test]
fn whole_logs_read_back() {
    let events = EventNames::client();
    let records = vec![
        rec(5, &events.wire, 1, 514, "dummy"),
        rec(u128::MAX, &events.real, u64::MAX, 0, "real"),
        rec(7, &events.wire, 3, 9, ""),
    ];
    let mut log = header_line().into_bytes();
    log.extend_from_slice(b"\n\n");
    for r in &records {
        let line =
            row_line(r.unix_nanos, &r.role, &r.event, r.conn_id, r.seq, r.bytes, &r.kind);
        log.extend_from_slice(line.as_bytes());
        log.extend_from_slice(b"\n  \t\nnot,a,row\n\xff\xfe\n1,a,b,x,0,0,real\n");
    }
    assert_eq!(parse_reader(&log), records);
    assert_eq!(records.clone(), records);
    assert_eq!(events.clone(), events);
}

#[test]
fn the_verdict_is_put_into_words() {
    assert_eq!(
        overall_verdict(true),
        "ADVERSARY GAINED AN ADVANTAGE — shaping leaked exploitable correlation."
    );
    assert_eq!(overall_verdict(false), "No exploitable correlation found at this configuration.");
}
