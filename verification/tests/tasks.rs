use pshred_router::bytes::{get_array, get_le, put_array, put_le};
use pshred_router::tasks::{commands, run_cargo, setup, task_step, Task, TaskStep};
use pshred_router::text::{join, push_decimal, push_signed_decimal};

#[test]
fn setup_installs_toolchain_and_linker() {
    let lines: Vec<String> = setup().iter().map(|i| i.echo()).collect();
    assert_eq!(
        lines,
        vec![
            "[xtask] $ rustup toolchain install nightly --component rust-src",
            "[xtask] $ cargo install bpf-linker",
        ]
    );
    assert_eq!(commands(Task::Setup), setup());
}

#[test]
fn build_and_check_run_cargo() {
    let build = commands(Task::Build);
    assert_eq!(build.len(), 1);
    assert_eq!(build[0].program, "cargo");
    assert_eq!(build[0].args, vec!["build", "--release", "-p", "pshred-router"]);
    let check = commands(Task::Check);
    assert_eq!(check.len(), 1);
    assert_eq!(check[0].echo(), "[xtask] $ cargo clippy --all-targets");
    assert_eq!(run_cargo("fmt", &[]).args, vec!["fmt"]);
}

#[test]
fn failures_name_the_program() {
    let cargo = run_cargo("build", &[]);
    assert_eq!(cargo.outcome(true, Some(0)), Ok(()));
    assert_eq!(
        cargo.outcome(false, Some(101)),
        Err("`cargo` exited with status 101".to_string())
    );
    assert_eq!(
        cargo.outcome(false, None),
        Err("`cargo` was terminated by a signal".to_string())
    );
}

#[test]
fn tasks_run_in_order_until_one_fails() {
    assert_eq!(task_step(2, 0, Ok(())), TaskStep::Run(0));
    assert_eq!(task_step(2, 1, Ok(())), TaskStep::Run(1));
    assert_eq!(task_step(2, 2, Ok(())), TaskStep::Done);
    let failed = || Err("`rustup` exited with status 1".to_string());
    assert_eq!(
        task_step(2, 1, failed()),
        TaskStep::Fail("`rustup` exited with status 1".to_string())
    );
    assert_eq!(
        task_step(2, 2, failed()),
        TaskStep::Fail("`rustup` exited with status 1".to_string())
    );
}

#[test]
fn spawn_failure_names_the_program() {
    assert_eq!(setup()[0].spawn_failure(), "failed to spawn `rustup`");
}

#[test]
fn numbers_in_decimal() {
    for n in [0, 7, 9, 10, 99, 100, 1_000_000, u64::MAX] {
        let mut s = String::new();
        push_decimal(&mut s, n);
        assert_eq!(s, format!("{n}"));
    }
    for n in [i32::MIN, -10, -1, 0, 5, i32::MAX] {
        let mut s = String::new();
        push_signed_decimal(&mut s, n);
        assert_eq!(s, format!("{n}"));
    }
}

#[test]
fn lists_with_separators() {
    let list = |items: &[&str]| items.iter().map(|s| s.to_string()).collect::<Vec<String>>();
    assert_eq!(join(&list(&[]), ", "), "");
    assert_eq!(join(&list(&["a"]), ", "), "a");
    assert_eq!(join(&list(&["a", "", "c"]), ", "), "a, , c");
}

#[test]
fn integers_in_buffers() {
    let mut b = [0xFFu8; 10];
    put_le(&mut b, 1, 0x0102_0304, 4);
    assert_eq!(b[..5], [0xFF, 4, 3, 2, 1]);
    assert_eq!(get_le(&b, 1, 4), 0x0102_0304);
    put_le(&mut b, 2, u64::MAX, 8);
    assert_eq!(get_le(&b, 2, 8), u64::MAX);
    assert_eq!(get_le(&b, 2, 0), 0);
    put_array(&mut b, 7, &[1, 2, 3]);
    assert_eq!(get_array::<3>(&b, 7), [1, 2, 3]);
    // what stands behind a field is left alone
    let mut b = [0xFFu8; 6];
    put_le(&mut b, 0, 0, 2);
    put_array(&mut b, 2, &[1, 1]);
    assert_eq!(b, [0, 0, 1, 1, 0xFF, 0xFF]);
}
