//! The lines that report on memory.
use tir::context::Context;
use tir::memstats::{
    add_total, analysis_census, egraph_census, enabled, pass_scope, pbqp_census, resident,
    summary, SlabBytes,
};
use tir::ty::{IntegerType, Type};

const STATUS: &str = "Name:\ttir\nVmHWM:\t    1500 kB\nVmRSS:\t    1200 kB\n";

#[test]
fn reporting_is_forced_or_asked_for() {
    assert!(enabled(true, None));
    assert!(enabled(false, Some("1")));
    assert!(!enabled(false, Some("0")));
    assert!(!enabled(false, None));
}

#[test]
fn a_status_spells_the_resident_set() {
    assert_eq!(resident(STATUS), (1500, 1200));
    assert_eq!(resident(""), (0, 0));
    assert_eq!(resident("VmHWM: much kB\nVmRSS:\n"), (0, 0));
    assert_eq!(resident("VmHWM: +7\nVmRSS: 18446744073709551616"), (7, 0));
}

#[test]
fn a_pass_reports_what_it_moved() {
    let mut context = Context::with_default_dialects();
    let ty = context.get_type_id(Type::Integer(IntegerType { width: 8 }));
    context.create_value(ty, None);
    let bytes = SlabBytes { ops: 10, values: 20, blocks: 30, regions: 40, slab: 100 };
    let census = context.slab_census(bytes);
    assert_eq!((census.values_slab, census.values_live, census.ops_slab), (1, 1, 0));
    assert!(pass_scope(false, "cse", STATUS).is_none());
    let scope = pass_scope(true, "cse", STATUS).expect("on");
    let (pass, line, moved) = scope.finish(1600, 1100, &census);
    assert_eq!(
        pass,
        "tir-mem: pass name=cse vmhwm_kb=1600 hwm_delta_kb=100 rss_delta_kb=-100"
    );
    assert_eq!(
        line,
        "tir-mem: context after=cse ops_slab=0 ops_live=0 values_slab=1 values_live=1 \
         blocks_slab=0 blocks_live=0 regions_slab=0 regions_live=0 ops_bytes=10 \
         values_bytes=20 blocks_bytes=30 regions_bytes=40 slab_bytes=100 bytes_per_live_op=10"
    );
    assert_eq!(moved, 100);
}

#[test]
fn the_summary_lists_the_worst_pass_first() {
    let mut totals = vec![];
    add_total(&mut totals, "cse", 10);
    add_total(&mut totals, "dce", 40);
    add_total(&mut totals, "abi", 10);
    add_total(&mut totals, "cse", 5);
    let lines = summary(true, STATUS, &totals);
    assert_eq!(
        lines,
        vec![
            "tir-mem: summary peak_vmhwm_kb=1500",
            "tir-mem: top-pass name=dce hwm_delta_kb=40",
            "tir-mem: top-pass name=cse hwm_delta_kb=15",
            "tir-mem: top-pass name=abi hwm_delta_kb=10",
        ]
    );
    assert!(summary(false, STATUS, &totals).is_empty());
}

#[test]
fn the_other_censuses_are_one_line_each() {
    assert_eq!(
        analysis_census(true, "cse", 3),
        Some("tir-mem: analyses after=cse entries=3".to_string())
    );
    assert_eq!(
        egraph_census(true, "isel", 5, 4, 99),
        Some("tir-mem: egraph label=isel nodes=5 classes=4 approx_bytes=99".to_string())
    );
    assert_eq!(
        pbqp_census(true, "regalloc", 2, 1, 64),
        Some("tir-mem: pbqp label=regalloc nodes=2 edges=1 matrix_bytes=64".to_string())
    );
    assert_eq!(analysis_census(false, "cse", 3), None);
}
