use astral_kernel::font::draw_char;
use astral_kernel::gui::{desktop_step, DesktopAction, DesktopEvent, DesktopState};
use astral_kernel::gui::draw_file_browser;
use astral_kernel::framebuffer::CursorTracker;
use astral_kernel::gui::FileBrowser;
use astral_kernel::gui::hit_test_window;
use astral_kernel::bootmenu::{menu_choice, welcome_line, BootOption, MenuAction};
use astral_kernel::display::DisplayServer;
use astral_kernel::framebuffer::Framebuffer;
use astral_kernel::graphics::GraphicsServer;
use astral_kernel::gui::Theme;
use astral_kernel::ipc::{ChannelTable, IpcError, Message, RecvStep, SendStep, CHANNEL_CAPACITY};
use astral_kernel::protocol::{GraphicsCommand, GraphicsRequest, GraphicsResponse};
use astral_kernel::render::{
    draw_circle_to_buffer, draw_rounded_outline, draw_rounded_rect, draw_shadow, render_cursor_to_buffer,
    render_taskbar_to_buffer,
};
use astral_kernel::surface::Surface;

#[test]
fn surface_errors() {
    assert_eq!(Surface::new(1, 0, 10).err(), Some("Invalid surface dimensions"));
    assert_eq!(Surface::new(1, 9000, 10).err(), Some("Surface too large"));
    let mut s = Surface::new(1, 2, 2).ok().unwrap();
    assert_eq!(s.update_pixels(&[0u8; 3]).err(), Some("Invalid pixel data size"));
    assert!(s.update_pixels(&[7u8; 16]).is_ok());
}

#[test]
fn create_then_destroy_surface() {
    let mut g = GraphicsServer::new(64, 48, 256);
    let id = g.create_surface(8, 8).unwrap();
    assert!(g.get_surface(id).is_some());
    assert!(g.update_surface(id, &[1u8; 256]).is_ok());
    assert!(g.destroy_surface(id).is_ok());
    assert!(g.get_surface(id).is_none());
    assert!(g.destroy_surface(id).is_ok());
    assert_eq!(g.update_surface(id, &[1u8; 256]).err(), Some("Surface not found"));
}

#[test]
fn rounded_rect_corners_stay_untouched() {
    let sw = 20usize;
    let mut buf = vec![0u32; sw * 20];
    draw_rounded_rect(&mut buf, sw, 2, 2, 10, 10, 4, 0xFF);
    assert_eq!(buf[2 * sw + 2], 0, "corner pixel outside the rounding");
    assert_eq!(buf[7 * sw + 7], 0xFF, "centre pixel painted");
    assert_eq!(buf[2 * sw + 7], 0xFF, "top edge middle painted");
    assert_eq!(buf[12 * sw + 7], 0, "below the rectangle untouched");
}

#[test]
fn outline_leaves_inside_alone() {
    let sw = 32usize;
    let mut buf = vec![1u32; sw * 32];
    draw_rounded_outline(&mut buf, sw, 0, 0, 30, 30, 0, 2, 9);
    assert_eq!(buf[0], 9);
    assert_eq!(buf[sw + 1], 9);
    assert_eq!(buf[2 * sw + 2], 1);
    assert_eq!(buf[15 * sw + 15], 1);
    assert_eq!(buf[29 * sw + 29], 9);
}

#[test]
fn shadow_darkens_and_clips_at_screen_edge() {
    let sw = 40usize;
    let mut buf = vec![0x00FF_FFFFu32; sw * 40];
    draw_shadow(&mut buf, sw, 0, 0, 20, 20, 0, 0x0000_0080);
    assert_eq!(buf[27 * sw + 27], 0x007F_7F7F);
    assert_eq!(buf[10 * sw + 10], 0x00FF_FFFF);
    let mut untouched = vec![0x00FF_FFFFu32; sw * 40];
    draw_shadow(&mut untouched, sw, 0, 0, 20, 20, 0, 0x00FF_FF00);
    assert!(untouched.iter().all(|&p| p == 0x00FF_FFFF));
    let mut edge = vec![5u32; 10 * 10];
    draw_rounded_rect(&mut edge, 10, 8, 0, 5, 1, 0, 7);
    assert_eq!(&edge[8..10], &[7, 7]);
    assert_eq!(edge[10], 5, "no wrap into the next row");
}

#[test]
fn disc_and_cursor() {
    let sw = 16usize;
    let mut buf = vec![0u32; sw * 16];
    draw_circle_to_buffer(&mut buf, sw, 8, 8, 2, 3);
    assert_eq!(buf[8 * sw + 8], 3);
    assert_eq!(buf[8 * sw + 10], 3);
    assert_eq!(buf[10 * sw + 10], 0);
    let mut c = vec![0x00AA_AAAAu32; sw * 16];
    render_cursor_to_buffer(&mut c, sw, 4, 4, false, 0x0000FF);
    assert_eq!(c[4 * sw + 4], 0xFFFFFF);
    assert_eq!(c[4 * sw + 3], 0);
    assert_eq!(c[10 * sw + 4], 0xFFFFFF);
    assert_eq!(c[11 * sw + 4], 0);
    let mut d = vec![0u32; sw * 16];
    render_cursor_to_buffer(&mut d, sw, 4, 4, true, 0x0000FF);
    assert_eq!(d[4 * sw + 4], 0x0000FF);
}

#[test]
fn taskbar_labels() {
    let mut server = DisplayServer::new(400, 300);
    let mut gfx = GraphicsServer::new(400, 300, 1600);
    let client = server.register_client("shell");
    let _w = server.create_window(&mut gfx, client, "A rather long title", 100, 100).unwrap();
    let theme = Theme::dark();
    let mut buf = vec![0u32; 400 * 300];
    let labels = render_taskbar_to_buffer(&mut buf, &server, &theme, "12:34");
    let texts: Vec<&str> = labels.iter().map(|l| l.text.as_str()).collect();
    assert_eq!(texts, vec!["Start", "A rather...", "12:34"]);
    assert_eq!(labels[0].x, 20);
    assert_eq!(labels[1].x, 90);
    assert_eq!(labels[2].x, 320);
    assert_eq!(buf[(300 - 40) * 400 + 1], theme.taskbar_bg);
}

#[test]
fn blit_copies_and_clips() {
    let mut fb = Framebuffer::new(40, 30, 160, 32);
    let img: Vec<u32> = (0..6).collect();
    fb.blit_buffer(&img, 38, 0, 3, 2);
    assert_eq!(fb.pixels[38], 0);
    assert_eq!(fb.pixels[39], 1);
    assert_eq!(fb.pixels[40 + 38], 3);
    assert_eq!(fb.pixels[40], 0, "the clipped column is not wrapped");
}

#[test]
fn channels_send_receive_close() {
    let mut t = ChannelTable::new();
    let id = t.create_channel();
    assert_eq!(id, 1);
    let m = Message::new(7, 42, b"ping");
    assert!(matches!(t.channel_send(id, m, Some(42)), SendStep::Sent(None)));
    match t.channel_recv(id, Some(43)) {
        RecvStep::Received(msg, woken) => {
            assert_eq!(msg.data(), b"ping");
            assert_eq!(msg.sender, 42);
            assert_eq!(woken, None);
        },
        _ => panic!("a message was queued"),
    }
    assert!(matches!(t.channel_recv(id, Some(43)), RecvStep::Blocked));
    assert!(matches!(t.channel_recv(id, None), RecvStep::Failed(IpcError::WouldBlock)));
    assert!(matches!(t.channel_send(id, Message::new(1, 44, b"x"), Some(44)), SendStep::Sent(Some(43))));
    let woken = t.close_channel(id);
    assert_eq!(woken, Vec::<u64>::new());
    assert!(matches!(t.channel_send(id, Message::new(1, 1, b""), None), SendStep::Failed(IpcError::InvalidChannel)));
}

#[test]
fn channel_full_blocks_sender() {
    let mut t = ChannelTable::new();
    let id = t.create_channel();
    for i in 0..CHANNEL_CAPACITY {
        assert!(matches!(t.channel_send(id, Message::new(i as u32, 1, b"m"), Some(1)), SendStep::Sent(None)));
    }
    assert!(matches!(t.channel_send(id, Message::new(0, 1, b"m"), Some(9)), SendStep::Blocked));
    assert!(matches!(t.channel_send(id, Message::new(0, 1, b"m"), None), SendStep::Failed(IpcError::WouldBlock)));
    match t.channel_recv(id, Some(2)) {
        RecvStep::Received(msg, woken) => {
            assert_eq!(msg.msg_type, 0);
            assert_eq!(woken, Some(9));
        },
        _ => panic!("full channel"),
    }
    assert_eq!(t.close_channel(id), Vec::<u64>::new());
}

#[test]
fn long_message_is_cut() {
    let data = vec![3u8; 300];
    let m = Message::new(1, 2, &data);
    assert_eq!(m.data().len(), 256);
}

#[test]
fn graphics_protocol_codes() {
    assert!(GraphicsCommand::from_u32(3) == Some(GraphicsCommand::UpdateSurface));
    assert!(GraphicsCommand::from_u32(0).is_none());
    assert_eq!(GraphicsCommand::SetZOrder.code(), 7);
    let r = GraphicsRequest { command: 5, surface_id: 1, x: 0, y: 0, width: 0, height: 0, data_len: 0 };
    assert!(r.command() == Some(GraphicsCommand::PresentSurface));
    let ok = GraphicsResponse::ok(9);
    assert!(ok.success && ok.surface_id == 9);
    let err = GraphicsResponse::error(-2);
    assert!(!err.success && err.error_code == -2);
}

#[test]
fn boot_menu_choices() {
    assert!(menu_choice('1', false) == MenuAction::Start(BootOption::Shell));
    assert!(menu_choice('2', false) == MenuAction::Start(BootOption::Graphics));
    assert!(menu_choice('3', true) == MenuAction::Start(BootOption::KShell));
    assert!(menu_choice('3', false) == MenuAction::Denied);
    assert!(menu_choice('x', true) == MenuAction::Ignore);
    let line = welcome_line("root");
    assert_eq!(line, format!("  ║  Welcome, {:27}║\n", "root"));
}

#[test]
fn console_draws_glyph_pixels() {
    let mut fb = Framebuffer::new(64, 48, 256, 32);
    fb.draw_char('A', 0xFFFFFF, 0);
    assert!(fb.pixels.iter().any(|&p| p != 0), "the glyph of 'A' has lit pixels");
    let (x, y) = fb.get_cursor_pos();
    assert_eq!((x, y), (9, 0));
}

#[test]
fn cursor_sprite_redraws_only_on_move() {
    let mut fb = Framebuffer::new(40, 30, 160, 32);
    let mut t = CursorTracker::new();
    t.update_cursor_only(&mut fb, 2, 2, false);
    assert_eq!(fb.pixels[2 * 40 + 2], 0xFFFFFF);
    assert_eq!(fb.pixels[2 * 40 + 3], 0);
    assert_eq!(fb.pixels[8 * 40 + 8], 0xFFFFFF);
    fb.pixels[2 * 40 + 2] = 7;
    t.update_cursor_only(&mut fb, 2, 2, true);
    assert_eq!(fb.pixels[2 * 40 + 2], 7, "same position: nothing drawn");
    t.update_cursor_only(&mut fb, 3, 2, true);
    assert_eq!(fb.pixels[2 * 40 + 3], 0x00AAFF);
}

#[test]
fn file_browser_selection() {
    let mut b = FileBrowser::new(vec!["a".to_string(), "b".to_string(), "c".to_string()]);
    b.move_up();
    assert_eq!(b.selected, 0);
    b.move_down();
    b.move_down();
    b.move_down();
    assert_eq!(b.selected_file().map(|s| s.as_str()), Some("c"));
    b.refresh(vec!["only".to_string()]);
    assert_eq!(b.selected, 0);
    b.refresh(vec![]);
    assert!(b.selected_file().is_none());
}

#[test]
fn hit_test_prefers_top_window() {
    let mut server = DisplayServer::new(800, 600);
    let mut gfx = GraphicsServer::new(800, 600, 3200);
    let client = server.register_client("c");
    let a = server.create_window(&mut gfx, client, "About", 100, 100).unwrap();
    let b = server.create_window(&mut gfx, client, "Calculator", 100, 100).unwrap();
    let wa = server.windows.iter().find(|w| w.id == a).unwrap();
    let (ax, ay) = (wa.x, wa.y);
    let hit = hit_test_window(&server, ax + 1, ay + 1);
    assert!(hit.is_some());
    let (id, dx, dy) = hit.unwrap();
    assert!(id == a || id == b);
    assert_eq!((dx, dy), (1, 1));
    assert!(hit_test_window(&server, -500, -500).is_none());
}

#[test]
fn desktop_click_drag_and_keys() {
    let mut d = DesktopState::new(Some(1));
    let a = desktop_step(&mut d, DesktopEvent::Pointer { x: 100, y: 50, pressed: true, hit: Some((2, 10, 5)) });
    assert!(matches!(a, DesktopAction::Pointer { focus: Some(2), move_to: Some((2, 90, 45)) }));
    assert!(matches!(d.dragging, Some((2, 10, 5))));
    let a = desktop_step(&mut d, DesktopEvent::Pointer { x: 120, y: 70, pressed: true, hit: None });
    assert!(matches!(a, DesktopAction::Pointer { focus: None, move_to: Some((2, 110, 65)) }));
    let a = desktop_step(&mut d, DesktopEvent::Pointer { x: 120, y: 70, pressed: false, hit: None });
    assert!(matches!(a, DesktopAction::Pointer { focus: None, move_to: None }));
    assert!(d.dragging.is_none());
    let a = desktop_step(&mut d, DesktopEvent::Pointer { x: 5, y: 5, pressed: true, hit: Some((3, 5, 40)) });
    assert!(matches!(a, DesktopAction::Pointer { focus: Some(3), move_to: None }));
    assert!(matches!(desktop_step(&mut d, DesktopEvent::Key { key: b'1', focused: Some(1) }), DesktopAction::OpenCalculator));
    assert!(d.calculator_open);
    desktop_step(&mut d, DesktopEvent::Opened { calculator: true, id: Some(7) });
    assert_eq!(d.calc_window_id, Some(7));
    assert!(matches!(desktop_step(&mut d, DesktopEvent::Key { key: b'5', focused: Some(7) }), DesktopAction::CalculatorKey(b'5')));
    assert!(matches!(desktop_step(&mut d, DesktopEvent::Key { key: b'c', focused: Some(1) }), DesktopAction::Focus(7)));
    assert!(matches!(desktop_step(&mut d, DesktopEvent::Key { key: b'j', focused: Some(1) }), DesktopAction::BrowserDown));
    assert!(matches!(desktop_step(&mut d, DesktopEvent::Key { key: b'x', focused: Some(7) }), DesktopAction::CalculatorKey(b'x')));
    assert!(matches!(desktop_step(&mut d, DesktopEvent::Key { key: b'x', focused: Some(1) }), DesktopAction::Close(1)));
    assert!(d.calculator_open && d.calc_window_id == Some(7));
    assert!(matches!(desktop_step(&mut d, DesktopEvent::Key { key: b' ', focused: Some(1) }), DesktopAction::ToggleLayout));
    assert!(matches!(desktop_step(&mut d, DesktopEvent::Key { key: 27, focused: Some(1) }), DesktopAction::Quit));
}

#[test]
fn file_browser_drawing() {
    let mut s = Surface::new(1, 200, 120).ok().unwrap();
    let b = FileBrowser::new(vec!["a.txt".to_string(), "b.txt".to_string()]);
    draw_file_browser(&mut s, &b);
    assert_eq!(s.get_pixel(199, 119), Some(0x151515C0));
    assert_eq!(s.get_pixel(0, 0), Some(0x2A2A2AEE));
    assert_eq!(s.get_pixel(6, 41), Some(0x0A84FFD0));
    assert_eq!(s.get_pixel(16, 45), Some(0x4488FFFF));
    assert_eq!(s.get_pixel(6, 65), Some(0x151515C0));
    assert_eq!(s.get_pixel(16, 69), Some(0x4488FFFF));
}

#[test]
fn font_covers_basic_latin_only() {
    let mut s = Surface::new(1, 20, 20).ok().unwrap();
    draw_char(&mut s, 0, 0, '\u{e9}', 0xFFFFFF);
    assert!((0..20).all(|y| (0..20).all(|x| s.get_pixel(x, y) == Some(0))));
    draw_char(&mut s, 0, 0, 'A', 0xFFFFFF);
    assert!((0..20).any(|y| (0..20).any(|x| s.get_pixel(x, y) != Some(0))));
}
