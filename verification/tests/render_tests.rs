use invaders::channel::{render_pending, FrameChannel, Received};
use invaders::frame::{new_frame, Cell, Frame, NUM_CELLS, NUM_COLS, NUM_ROWS};
use invaders::render::{render, CellWrite, RenderEngine};

fn blank_screen() -> Vec<Cell> {
    vec![Cell::Empty; NUM_CELLS]
}

fn carry_out(screen: &mut Vec<Cell>, writes: &[CellWrite]) {
    for w in writes {
        assert!(w.col < NUM_COLS && w.row < NUM_ROWS);
        screen[w.row * NUM_COLS + w.col] = w.cell;
    }
}

fn shows(screen: &[Cell], frame: &Frame) -> bool {
    for row in 0..NUM_ROWS {
        for col in 0..NUM_COLS {
            if screen[row * NUM_COLS + col] != frame.get(col, row) {
                return false;
            }
        }
    }
    true
}

fn frame_with(cells: &[(usize, usize, char)]) -> Frame {
    let mut frame = new_frame();
    for &(col, row, glyph) in cells {
        frame.set(col, row, Cell::Glyph(glyph));
    }
    frame
}

#[test]
fn new_frame_is_all_empty() {
    let frame = new_frame();
    for row in 0..NUM_ROWS {
        for col in 0..NUM_COLS {
            assert_eq!(frame.get(col, row), Cell::Empty);
        }
    }
}

#[test]
fn set_then_get() {
    let mut frame = new_frame();
    frame.set(3, 7, Cell::Glyph('A'));
    assert_eq!(frame.get(3, 7), Cell::Glyph('A'));
    assert_eq!(frame.get(7, 3), Cell::Empty);
    frame.set(3, 7, Cell::Glyph('x'));
    assert_eq!(frame.get(3, 7), Cell::Glyph('x'));
}

#[test]
fn draw_outside_the_grid_is_ignored() {
    let mut frame = new_frame();
    frame.set(NUM_COLS, 0, Cell::Glyph('A'));
    frame.set(0, NUM_ROWS, Cell::Glyph('A'));
    frame.set(usize::MAX, usize::MAX, Cell::Glyph('A'));
    let writes = render(&new_frame(), &frame, false);
    assert_eq!(writes.len(), 0);
    assert_eq!(frame.get(NUM_COLS, 0), Cell::Empty);
}

#[test]
fn duplicate_keeps_every_cell() {
    let frame = frame_with(&[(0, 0, 'a'), (39, 19, 'z'), (5, 6, 'm')]);
    let copy = frame.duplicate();
    assert_eq!(render(&frame, &copy, false).len(), 0);
    assert_eq!(copy.get(39, 19), Cell::Glyph('z'));
}

#[test]
fn first_render_writes_every_cell_even_of_an_empty_frame() {
    let mut engine = RenderEngine::new();
    assert!(engine.fresh());
    let first = engine.present(new_frame());
    assert_eq!(first.len(), NUM_COLS * NUM_ROWS);
    assert!(!engine.fresh());
    let second = engine.present(new_frame());
    assert_eq!(second.len(), 0);
}

#[test]
fn full_redraw_goes_row_by_row() {
    let frame = frame_with(&[(1, 0, 'b'), (0, 1, 'c')]);
    let writes = render(&new_frame(), &frame, true);
    assert_eq!(writes.len(), 800);
    assert_eq!(writes[0], CellWrite { col: 0, row: 0, cell: Cell::Empty });
    assert_eq!(writes[1], CellWrite { col: 1, row: 0, cell: Cell::Glyph('b') });
    assert_eq!(writes[40], CellWrite { col: 0, row: 1, cell: Cell::Glyph('c') });
    assert_eq!(writes[799], CellWrite { col: 39, row: 19, cell: Cell::Empty });
}

#[test]
fn identical_frames_give_no_write() {
    let a = frame_with(&[(4, 4, 'x'), (10, 12, '+')]);
    let b = frame_with(&[(4, 4, 'x'), (10, 12, '+')]);
    assert_eq!(render(&a, &b, false).len(), 0);
}

#[test]
fn diff_writes_only_changed_cells_in_row_major_order() {
    let prev = frame_with(&[(5, 2, 'x'), (7, 9, 'A')]);
    let curr = frame_with(&[(6, 2, 'x'), (7, 9, 'A'), (0, 1, '|')]);
    let writes = render(&prev, &curr, false);
    assert_eq!(
        writes,
        vec![
            CellWrite { col: 0, row: 1, cell: Cell::Glyph('|') },
            CellWrite { col: 5, row: 2, cell: Cell::Empty },
            CellWrite { col: 6, row: 2, cell: Cell::Glyph('x') },
        ]
    );
}

#[test]
fn replayed_writes_rebuild_the_latest_frame() {
    let mut engine = RenderEngine::new();
    let mut screen = blank_screen();
    let steps: Vec<Vec<(usize, usize, char)>> = vec![
        vec![],
        vec![(20, 19, 'A')],
        vec![(20, 19, 'A'), (20, 18, '|'), (2, 2, 'x')],
        vec![(19, 19, 'A'), (20, 17, '|'), (3, 2, '+')],
        vec![(19, 19, 'A'), (20, 17, '|'), (3, 2, '+')],
        vec![],
    ];
    for step in steps {
        let frame = frame_with(&step);
        let expected = frame.duplicate();
        let writes = engine.present(frame);
        carry_out(&mut screen, &writes);
        assert!(shows(&screen, &expected));
        assert!(shows(&screen, engine.last_frame()));
    }
}

#[test]
fn full_redraw_overwrites_an_unknown_screen() {
    let mut screen = vec![Cell::Glyph('?'); NUM_CELLS];
    let mut engine = RenderEngine::new();
    let writes = engine.present(new_frame());
    carry_out(&mut screen, &writes);
    assert!(shows(&screen, &new_frame()));
}

#[test]
fn frames_arrive_in_send_order() {
    let mut channel = FrameChannel::new();
    assert!(channel.send(frame_with(&[(1, 1, '1')])));
    assert!(channel.send(frame_with(&[(1, 1, '2')])));
    assert!(channel.send(frame_with(&[(1, 1, '3')])));
    assert_eq!(channel.len(), 3);
    for expected in ['1', '2', '3'] {
        match channel.recv() {
            Received::Frame(frame) => assert_eq!(frame.get(1, 1), Cell::Glyph(expected)),
            other => panic!("expected a frame, got {:?}", other),
        }
    }
    assert!(matches!(channel.recv(), Received::Empty));
}

#[test]
fn closed_channel_hands_out_what_is_left_and_then_ends() {
    let mut channel = FrameChannel::new();
    assert!(channel.send(frame_with(&[(0, 0, 'a')])));
    assert!(channel.send(frame_with(&[(0, 0, 'b')])));
    channel.close();
    assert!(channel.is_closed());
    assert!(!channel.send(frame_with(&[(0, 0, 'c')])));
    assert_eq!(channel.len(), 2);
    assert!(matches!(channel.recv(), Received::Frame(_)));
    assert!(matches!(channel.recv(), Received::Frame(_)));
    assert!(matches!(channel.recv(), Received::Closed));
    assert!(matches!(channel.recv(), Received::Closed));
}

#[test]
fn render_pending_draws_all_frames_and_reports_closure() {
    let mut engine = RenderEngine::new();
    let mut channel = FrameChannel::new();
    let mut screen = blank_screen();

    let (batches, done) = render_pending(&mut engine, &mut channel);
    assert_eq!(batches.len(), 0);
    assert!(!done);
    assert!(engine.fresh());

    channel.send(frame_with(&[(3, 3, 'x')]));
    channel.send(frame_with(&[(4, 3, 'x')]));
    let (batches, done) = render_pending(&mut engine, &mut channel);
    assert!(!done);
    assert_eq!(batches.len(), 2);
    assert_eq!(batches[0].len(), 800);
    assert_eq!(
        batches[1],
        vec![
            CellWrite { col: 3, row: 3, cell: Cell::Empty },
            CellWrite { col: 4, row: 3, cell: Cell::Glyph('x') },
        ]
    );
    for batch in &batches {
        carry_out(&mut screen, batch);
    }
    assert!(shows(&screen, &frame_with(&[(4, 3, 'x')])));
    assert_eq!(channel.len(), 0);

    channel.send(frame_with(&[(4, 4, 'x')]));
    channel.close();
    let (batches, done) = render_pending(&mut engine, &mut channel);
    assert!(done);
    assert_eq!(batches.len(), 1);
    assert_eq!(batches[0].len(), 2);
    carry_out(&mut screen, &batches[0]);
    assert!(shows(&screen, &frame_with(&[(4, 4, 'x')])));

    let (batches, done) = render_pending(&mut engine, &mut channel);
    assert!(done);
    assert_eq!(batches.len(), 0);
}
