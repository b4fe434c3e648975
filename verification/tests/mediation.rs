use launcher_core::mediate::{conclude, MediateError, MediateReport};

#[test]
fn spawn_failure_is_surfaced() {
    let r = conclude(MediateReport::SpawnError, true);
    assert_eq!(r, Err(MediateError::SpawnFailed));
    let r = conclude(MediateReport::SpawnError, false);
    assert_eq!(r, Err(MediateError::SpawnFailed));
}

#[test]
fn write_failure_is_reported_even_with_output() {
    let r = conclude(
        MediateReport::Ran {
            write_ok: false,
            join_ok: true,
            exit_code: 0,
            output: b"partial output".to_vec(),
        },
        true,
    );
    assert_eq!(r, Err(MediateError::WriteFailed));
}

#[test]
fn join_failure_is_reported_even_with_output() {
    let r = conclude(
        MediateReport::Ran {
            write_ok: true,
            join_ok: false,
            exit_code: 0,
            output: b"collected".to_vec(),
        },
        true,
    );
    assert_eq!(r, Err(MediateError::JoinFailed));
}

#[test]
fn nonzero_exit_is_failure_under_that_contract() {
    let r = conclude(
        MediateReport::Ran {
            write_ok: true,
            join_ok: true,
            exit_code: 3,
            output: b"truncated".to_vec(),
        },
        true,
    );
    assert_eq!(r, Err(MediateError::NonZeroExit(3)));
}

#[test]
fn nonzero_exit_passes_when_the_caller_tolerates_it() {
    let r = conclude(
        MediateReport::Ran {
            write_ok: true,
            join_ok: true,
            exit_code: 3,
            output: b"bytes".to_vec(),
        },
        false,
    );
    assert_eq!(r, Ok(b"bytes".to_vec()));
}

#[test]
fn success_returns_the_collected_output() {
    let r = conclude(
        MediateReport::Ran {
            write_ok: true,
            join_ok: true,
            exit_code: 0,
            output: b"the whole output".to_vec(),
        },
        true,
    );
    assert_eq!(r, Ok(b"the whole output".to_vec()));
}
