use game_of_life::gfx::{compile_verdict, link_verdict, uniform_verdict, GfxError};
use game_of_life::layout::{canvas_dimension, cell_size, quad_vertices};

#[test]
fn cell_size_is_fixed_pitch_constant() {
    assert_eq!(cell_size(), 6);
}

#[test]
fn canvas_dimension_formula() {
    assert_eq!(canvas_dimension(64), (6 + 1) * 64 + 1);
    assert_eq!(canvas_dimension(64), 449);
    assert_eq!(canvas_dimension(1), 8);
    assert_eq!(canvas_dimension(3), 22);
}

#[test]
fn quad_vertices_pixel_corners() {
    let vertices = quad_vertices(&vec![(0, 0)], 3, 3);
    assert_eq!(vertices, vec![1, 1, 7, 1, 7, 7, 1, 7]);

    let vertices = quad_vertices(&vec![(2, 3)], 8, 8);
    assert_eq!(vertices, vec![22, 15, 28, 15, 28, 21, 22, 21]);

    let vertices = quad_vertices(&vec![(0, 0), (1, 1)], 4, 4);
    assert_eq!(vertices.len(), 16);
    assert_eq!(vertices[8..].to_vec(), vec![8, 8, 14, 8, 14, 14, 8, 14]);
}

#[test]
fn quad_vertices_empty_changes() {
    let vertices = quad_vertices(&vec![], 8, 8);
    assert_eq!(vertices, vec![]);
}

#[test]
fn compile_failure_carries_diagnostic() {
    match compile_verdict(Some(false), Some("bad shader".to_owned())) {
        Err(GfxError::CompileFailure(message)) => {
            assert_eq!(message, "bad shader");
            assert!(!message.is_empty());
        }
        other => panic!("expected a compile failure, got {other:?}"),
    }
}

#[test]
fn compile_failure_falls_back_without_log() {
    match compile_verdict(None, None) {
        Err(GfxError::CompileFailure(message)) => {
            assert_eq!(message, "Unknown error creating shader");
        }
        other => panic!("expected a compile failure, got {other:?}"),
    }
    match compile_verdict(Some(false), None) {
        Err(GfxError::CompileFailure(message)) => {
            assert_eq!(message, "Unknown error creating shader");
        }
        other => panic!("expected a compile failure, got {other:?}"),
    }
}

#[test]
fn compile_success_yields_no_error() {
    assert!(compile_verdict(Some(true), None).is_ok());
    assert!(compile_verdict(Some(true), Some("stale log".to_owned())).is_ok());
}

#[test]
fn link_failure_carries_diagnostic() {
    match link_verdict(Some(false), Some("unresolved varying".to_owned())) {
        Err(GfxError::LinkFailure(message)) => {
            assert_eq!(message, "unresolved varying");
        }
        other => panic!("expected a link failure, got {other:?}"),
    }
    match link_verdict(None, None) {
        Err(GfxError::LinkFailure(message)) => {
            assert_eq!(message, "Unknown error creating program object");
        }
        other => panic!("expected a link failure, got {other:?}"),
    }
    assert!(link_verdict(Some(true), None).is_ok());
}

#[test]
fn uniform_lookup_reports_error_code() {
    match uniform_verdict(false, 1282) {
        Err(GfxError::UniformUnavailable(code)) => assert_eq!(code, 1282),
        other => panic!("expected a uniform failure, got {other:?}"),
    }
    assert!(uniform_verdict(true, 0).is_ok());
}
