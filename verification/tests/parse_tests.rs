use pam_setquota::directive::{QuotaDirective, QuotaRequest, ResourceKind};
use pam_setquota::parse::{parse_args, parse_token};

fn toks(v: &[&str]) -> Vec<String> {
    v.iter().map(|s| s.to_string()).collect()
}

#[test]
fn parse_blocks_round_trip() {
    let req = parse_args(&toks(&["blocks=100,200"])).unwrap();
    assert_eq!(
        req,
        QuotaRequest {
            blocks_set: true,
            bsoft: 100,
            bhard: 200,
            inodes_set: false,
            isoft: 0,
            ihard: 0,
        }
    );
}

#[test]
fn parse_inodes_round_trip() {
    let req = parse_args(&toks(&["inodes=10000,12000"])).unwrap();
    assert_eq!(
        req,
        QuotaRequest {
            blocks_set: false,
            bsoft: 0,
            bhard: 0,
            inodes_set: true,
            isoft: 10000,
            ihard: 12000,
        }
    );
}

#[test]
fn parse_both_kinds() {
    let req = parse_args(&toks(&["blocks=1,2", "inodes=3,4"])).unwrap();
    assert_eq!(
        req,
        QuotaRequest {
            blocks_set: true,
            bsoft: 1,
            bhard: 2,
            inodes_set: true,
            isoft: 3,
            ihard: 4,
        }
    );
}

#[test]
fn parse_last_writer_wins() {
    let twice = parse_args(&toks(&["blocks=1,2", "blocks=3,4"])).unwrap();
    let once = parse_args(&toks(&["blocks=3,4"])).unwrap();
    assert_eq!(twice, once);
    assert_eq!(twice.bsoft, 3);
    assert_eq!(twice.bhard, 4);
}

#[test]
fn parse_order_independent_across_kinds() {
    let ab = parse_args(&toks(&["blocks=1,2", "inodes=3,4"])).unwrap();
    let ba = parse_args(&toks(&["inodes=3,4", "blocks=1,2"])).unwrap();
    assert_eq!(ab, ba);
}

#[test]
fn parse_empty_args_is_noop_request() {
    let req = parse_args(&Vec::new()).unwrap();
    assert_eq!(
        req,
        QuotaRequest {
            blocks_set: false,
            bsoft: 0,
            bhard: 0,
            inodes_set: false,
            isoft: 0,
            ihard: 0,
        }
    );
}

#[test]
fn parse_accepts_leading_zeros() {
    let req = parse_args(&toks(&["blocks=007,08"])).unwrap();
    assert_eq!(req.bsoft, 7);
    assert_eq!(req.bhard, 8);
}

#[test]
fn parse_accepts_soft_above_hard() {
    // No relation between soft and hard is enforced.
    let req = parse_args(&toks(&["blocks=200,100"])).unwrap();
    assert_eq!(req.bsoft, 200);
    assert_eq!(req.bhard, 100);
}

#[test]
fn parse_accepts_u64_max() {
    let req = parse_args(&toks(&["blocks=18446744073709551615,0"])).unwrap();
    assert_eq!(req.bsoft, u64::MAX);
    assert_eq!(req.bhard, 0);
}

#[test]
fn parse_rejects_overflow() {
    let r = parse_args(&toks(&["blocks=18446744073709551616,0"]));
    assert_eq!(r, Err("blocks=18446744073709551616,0".to_string()));
}

#[test]
fn parse_rejects_unrecognized_tag() {
    let r = parse_args(&toks(&["bogus=1,2"]));
    assert_eq!(r, Err("bogus=1,2".to_string()));
}

#[test]
fn parse_rejects_malformed_tokens() {
    let bad = [
        "",
        "blocks",
        "blocks=",
        "blocks=1",
        "blocks=1,",
        "blocks=,2",
        "=1,2",
        "1,2",
        "blocks=1,2,3",
        "blocks=1,2x",
        "blocks=x,2",
        "BLOCKS=1,2",
        "blocks =1,2",
        "blocks=1.5,2",
        "blocks=-1,2",
    ];
    for t in bad {
        let r = parse_args(&toks(&[t]));
        assert_eq!(r, Err(t.to_string()), "token {:?} should fail", t);
    }
}

#[test]
fn parse_reports_first_failing_token() {
    let r = parse_args(&toks(&["blocks=1,2", "bad", "alsobad"]));
    assert_eq!(r, Err("bad".to_string()));
}

#[test]
fn parse_failure_aborts_fold() {
    // The failure is reported even when a later token is well-formed.
    let r = parse_args(&toks(&["oops", "blocks=1,2"]));
    assert_eq!(r, Err("oops".to_string()));
}

#[test]
fn parse_token_blocks() {
    let d = parse_token("blocks=5,6").unwrap();
    assert_eq!(
        d,
        QuotaDirective {
            resource: ResourceKind::Blocks,
            soft: 5,
            hard: 6,
        }
    );
}

#[test]
fn parse_token_inodes() {
    let d = parse_token("inodes=7,9").unwrap();
    assert_eq!(
        d,
        QuotaDirective {
            resource: ResourceKind::Inodes,
            soft: 7,
            hard: 9,
        }
    );
}

#[test]
fn parse_token_rejects_trailing_text() {
    assert_eq!(parse_token("blocks=1,2trailing"), None);
}
