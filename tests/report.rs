use crash_capture::report::{DiagnosticReport, SourceLocation, StackFrame};

fn frame(name: &str, file: &str, line: u32) -> StackFrame {
    StackFrame {
        name: Some(name.to_string()),
        location: Some(SourceLocation { file: file.to_string(), line }),
    }
}

#[test]
fn empty_report_has_banner_only() {
    let r = DiagnosticReport::new();
    assert_eq!(r.frame_count(), 0);
    assert_eq!(r.render(), "Model training crashed. Stack trace:\n\n");
}

#[test]
fn resolved_frames_render_innermost_first() {
    let r = DiagnosticReport::from_frames(vec![
        frame("inner", "src/a.rs", 7),
        frame("middle", "src/b.rs", 120),
        frame("outer", "src/c.rs", 4294967295),
    ]);
    assert_eq!(r.frame_count(), 3);
    assert_eq!(
        r.render(),
        "Model training crashed. Stack trace:\n\
         inner\n  at src/a.rs:7\n\
         middle\n  at src/b.rs:120\n\
         outer\n  at src/c.rs:4294967295\n\n"
    );
}

#[test]
fn depth_n_gives_n_frames_in_order() {
    let n = 25;
    let mut frames = Vec::new();
    for i in 0..n {
        frames.push(frame(&format!("f{}", i), "m.rs", i as u32));
    }
    let r = DiagnosticReport::from_frames(frames);
    assert_eq!(r.frame_count(), n);
    for i in 0..n {
        assert_eq!(r.frames[i].name, Some(format!("f{}", i)));
    }
    let text = r.render();
    assert_eq!(text.lines().count(), 1 + 2 * n + 1);
    let names: Vec<&str> = text.lines().skip(1).step_by(2).take(n).collect();
    for i in 0..n {
        assert_eq!(names[i], format!("f{}", i));
    }
}

#[test]
fn frame_without_name_is_kept() {
    let mut r = DiagnosticReport::new();
    r.push_frame(frame("top", "x.rs", 1));
    r.push_frame(StackFrame {
        name: None,
        location: Some(SourceLocation { file: "y.rs".to_string(), line: 10 }),
    });
    r.push_frame(StackFrame { name: None, location: None });
    r.push_frame(StackFrame { name: Some("bottom".to_string()), location: None });
    assert_eq!(r.frame_count(), 4);
    assert!(r.frames[1].name.is_none());
    assert_eq!(
        r.render(),
        "Model training crashed. Stack trace:\ntop\n  at x.rs:1\n\n  at y.rs:10\n\nbottom\n\n"
    );
}

#[test]
fn line_zero_and_single_digit_lines() {
    let r = DiagnosticReport::from_frames(vec![frame("z", "f.rs", 0), frame("n", "g.rs", 9)]);
    assert_eq!(
        r.render(),
        "Model training crashed. Stack trace:\nz\n  at f.rs:0\nn\n  at g.rs:9\n\n"
    );
}

#[test]
fn line_number_rendering_round_trips() {
    for line in [10u32, 99, 100, 1234, 65536, 1000000007] {
        let r = DiagnosticReport::from_frames(vec![frame("f", "a.rs", line)]);
        let text = r.render();
        let at = text.lines().nth(2).unwrap();
        assert_eq!(at, format!("  at a.rs:{}", line));
    }
}
