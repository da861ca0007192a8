use typastry::app_state::{AnimationState, ChangeTheme, MenuState};
use typastry::cache::{
    file_failure, revalidate, serve_without_check, stamp_after_read, CacheStamp, FileFailure,
    IoFailure,
};
use typastry::curve::CurveSegment::{Cubic, Line, Move};
use typastry::curve::{CurveSegment, CurveShape, TypstCurveExt};
use typastry::format::format_document;
use typastry::settings::{default_recent_files_limit, update_recent_files};

#[test]
fn animation_advances_after_delay() {
    let mut a = AnimationState::new(1_000);
    assert_eq!(a.advance(1_050, 100, 3), 0);
    assert_eq!(a.advance(1_100, 100, 3), 1);
    assert_eq!(a.last_frame_updated_nanos, 1_100);
    assert_eq!(a.advance(1_250, 100, 3), 2);
    assert_eq!(a.advance(1_400, 100, 3), 0);
    assert_eq!(a.advance(1_400, 100, 3), 0);
    assert_eq!(a.advance(10, 0, 3), 1);
}

#[test]
fn plain_state_types() {
    let t = ChangeTheme { name: "Tokyo Storm".to_string() };
    assert_eq!(t.clone(), t);
    let m = MenuState { has_active_file: true };
    assert!(m.has_active_file);
}

#[test]
fn cache_checks() {
    let e = CacheStamp { mtime: Some(5), last_checked: 1_000 };
    assert!(serve_without_check(Some(e), 1_000 + 999_999_999));
    assert!(!serve_without_check(Some(e), 1_000 + 1_000_000_000));
    assert!(serve_without_check(Some(e), 10));
    assert!(!serve_without_check(None, 0));
    assert_eq!(revalidate(Some(e), Some(5), 7), Some(CacheStamp { mtime: Some(5), last_checked: 7 }));
    assert_eq!(revalidate(Some(e), Some(6), 7), None);
    assert_eq!(revalidate(None, Some(5), 7), None);
    assert_eq!(stamp_after_read(None, 3), CacheStamp { mtime: None, last_checked: 3 });
    assert_eq!(file_failure(IoFailure::NotFound, "/x".to_string()), FileFailure::NotFound("/x".to_string()));
    assert_eq!(file_failure(IoFailure::PermissionDenied, "/x".to_string()), FileFailure::AccessDenied);
    assert_eq!(file_failure(IoFailure::Other, "/x".to_string()), FileFailure::Other);
}

#[test]
fn curve_shapes() {
    let ellipse = CurveShape {
        items: vec![Move, Cubic, Cubic, Cubic, Cubic, CurveSegment::Close],
    };
    assert!(ellipse.is_ellipse());
    assert!(ellipse.is_closed());
    let poly = CurveShape { items: vec![Move, Line, Cubic, Cubic, Cubic, Cubic] };
    assert!(!poly.is_ellipse());
    assert!(!poly.is_closed());
}

#[test]
fn format_with_typstyle() {
    assert_eq!(format_document("#let  x  =  1", 80), Ok("#let x = 1\n".to_string()));
    assert_eq!(
        format_document("#let x = (", 80),
        Err("The document has syntax errors".to_string())
    );
}

#[test]
fn recent_files_move_to_front() {
    assert_eq!(default_recent_files_limit(), 10);
    let mut recent = vec!["/a".to_string(), "/b".to_string(), "/c".to_string()];
    update_recent_files(&mut recent, "/c".to_string(), 10);
    assert_eq!(recent, vec!["/c", "/a", "/b"]);
    update_recent_files(&mut recent, "/d".to_string(), 2);
    assert_eq!(recent, vec!["/d", "/c"]);
    let before = recent.clone();
    update_recent_files(&mut recent, "/d".to_string(), 2);
    assert_eq!(recent, before);
}

#[test]
fn typst_curves() {
    use_typst_curve();
}

fn use_typst_curve() {
    let p = typst::layout::Point::zero();
    let circle = typst::visualize::Curve(vec![
        typst::visualize::CurveItem::Move(p),
        typst::visualize::CurveItem::Cubic(p, p, p),
        typst::visualize::CurveItem::Cubic(p, p, p),
        typst::visualize::CurveItem::Cubic(p, p, p),
        typst::visualize::CurveItem::Cubic(p, p, p),
        typst::visualize::CurveItem::Close,
    ]);
    assert!(circle.is_ellipse());
    assert!(circle.is_closed());
    let open_line = typst::visualize::Curve(vec![
        typst::visualize::CurveItem::Move(p),
        typst::visualize::CurveItem::Line(p),
    ]);
    assert!(!open_line.is_ellipse());
    assert!(!open_line.is_closed());
}

#[test]
fn preview_selection_ranges() {
    let mut s = typastry::app_state::PreviewSelection { selection_anchor: None, cursor_offset: 4 };
    assert_eq!(s.selection_range(), None);
    s.set_selection(9..3);
    assert_eq!(s.selection_range(), Some(3..9));
    s.set_selection(2..6);
    assert_eq!(s.selection_range(), Some(2..6));
    s.set_selection(5..5);
    assert_eq!(s.selection_range(), None);
}
