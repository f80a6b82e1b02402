use vorzax::driver::framebuffer::{self, Color, FramebufferDriver};
use vorzax::gui::about::{self, AboutApp};
use vorzax::gui::app::{self, AppRegistry, AppState, Application};
use vorzax::gui::desktop::{self, Desktop};
use vorzax::gui::event::{self, EventQueue, EventType, InputEvent, MouseButton};
use vorzax::gui::widget::{Button, Checkbox, Label, Panel, Slider, TextBox, WidgetState};
use vorzax::gui::window::{self, Rect, Window, WindowManager};

fn screen(w: u32, h: u32) -> Option<FramebufferDriver> {
    Some(FramebufferDriver::new(w, h, 0))
}

fn px(fb: &Option<FramebufferDriver>, x: u32, y: u32) -> u32 {
    fb.as_ref().unwrap().pixel(x, y)
}

#[test]
fn rect_contains_and_intersects() {
    let r = Rect::new(10, 10, 20, 20);
    assert!(r.contains_point(10, 10));
    assert!(r.contains_point(29, 29));
    assert!(!r.contains_point(30, 10));
    assert!(!r.contains_point(9, 15));
    assert!(r.intersects(&Rect::new(25, 25, 10, 10)));
    assert!(Rect::new(25, 25, 10, 10).intersects(&r));
    assert!(!r.intersects(&Rect::new(30, 0, 5, 5)));
}

#[test]
fn window_new_defaults() {
    let w = Window::new(3, 1, 2, 100, 50);
    assert_eq!(w.id, 3);
    assert_eq!(w.title[0], b'W');
    assert_eq!(w.title[1], 0);
    assert_eq!(w.title_len, 7);
    assert!(!w.has_focus);
    assert_eq!(w.background.to_u32(), 0xFFFF_FFFF);
    assert!(!w.hit_test_close_button());
}

#[test]
fn window_title_overwrites_prefix() {
    let mut w = Window::new(1, 0, 0, 100, 50);
    w.set_title("Hello");
    assert_eq!(&w.title[..5], b"Hello");
    assert_eq!(w.title_len, 5);
    w.set_title("Yo");
    assert_eq!(&w.title[..5], b"Yollo");
    assert_eq!(w.title_len, 2);
}

#[test]
fn window_manager_focus_moves() {
    let mut wm = WindowManager::new();
    assert_eq!(window::create_window(&mut wm, 0, 0, 100, 100), Some(1));
    assert_eq!(window::create_window(&mut wm, 10, 10, 100, 100), Some(2));
    assert_eq!(window::get_focused_window(&wm), Some(2));
    assert!(!wm.get_window(1).unwrap().has_focus);
    assert!(wm.get_window(2).unwrap().has_focus);
    window::set_focused_window(&mut wm, 1);
    assert!(wm.get_window(1).unwrap().has_focus);
    assert!(!wm.get_window(2).unwrap().has_focus);
    window::destroy_window(&mut wm, 1);
    assert_eq!(window::get_focused_window(&wm), None);
    assert!(wm.get_window(1).is_none());
    window::set_window_title(&mut wm, 2, "Two");
    assert_eq!(&wm.get_window(2).unwrap().title[..3], b"Two");
    wm.get_window_mut(2).unwrap().state = window::WindowState::Maximized;
    assert_eq!(wm.get_window(2).unwrap().state, window::WindowState::Maximized);
}

#[test]
fn window_manager_fills_up() {
    let mut wm = WindowManager::new();
    for i in 0..16u32 {
        assert_eq!(wm.create_window(0, 0, 30, 30), Some(i + 1));
    }
    assert_eq!(wm.create_window(0, 0, 30, 30), None);
    wm.destroy_window(5);
    assert_eq!(wm.create_window(0, 0, 30, 30), Some(17));
}

#[test]
fn window_render_draws_frame() {
    let mut fb = screen(64, 64);
    let mut w = Window::new(1, 0, 0, 40, 40);
    w.render(&mut fb);
    assert_eq!(px(&fb, 0, 0), 0x8080_80FF);
    assert_eq!(px(&fb, 5, 5), 0x8080_80FF);
    assert_eq!(px(&fb, 5, 30), 0xFFFF_FFFF);
    assert_eq!(px(&fb, 20, 10), 0xFFFF_FFFF);
    assert_eq!(px(&fb, 16, 2), 0x0000_00FF);
    w.has_focus = true;
    w.render(&mut fb);
    assert_eq!(px(&fb, 5, 5), 0x0000_80FF);
    assert_eq!(px(&fb, 0, 39), 0x0000_00FF);
    let mut wm = WindowManager::new();
    wm.create_window(0, 0, 30, 30);
    let mut none: Option<FramebufferDriver> = None;
    window::render_windows(&wm, &mut none);
    assert!(none.is_none());
}

#[test]
fn app_registry_lifecycle() {
    let mut reg = AppRegistry::new();
    let id = app::register_app(&mut reg, "Editor").unwrap();
    assert_eq!(id, 1);
    assert_eq!(app::get_app_state(&reg, id), Some(AppState::Starting));
    app::launch_app(&mut reg, id);
    assert_eq!(app::get_app_state(&reg, id), Some(AppState::Running));
    app::set_app_window(&mut reg, id, 9);
    assert_eq!(reg.get_app(id).unwrap().main_window, Some(9));
    assert_eq!(&reg.get_app(id).unwrap().name[..6], b"Editor");
    app::close_app(&mut reg, id);
    assert_eq!(app::get_app_state(&reg, id), None);
    assert_eq!(app::register_app(&mut reg, "Next"), Some(2));
}

#[test]
fn app_registry_full() {
    let mut reg = AppRegistry::new();
    for i in 0..32u32 {
        assert_eq!(reg.register_app("x"), Some(i + 1));
    }
    assert_eq!(reg.register_app("y"), None);
}

#[test]
fn application_states() {
    let mut a = Application::new(4, "Calc");
    assert_eq!(a.state, AppState::Starting);
    assert_eq!(a.name_len, 4);
    assert_eq!(a.name[4], 0);
    a.run();
    assert_eq!(a.state, AppState::Running);
    a.pause();
    assert_eq!(a.state, AppState::Paused);
    a.stop();
    assert_eq!(a.state, AppState::Stopped);
}

fn consume_quit(e: &InputEvent) -> bool {
    matches!(e.event_type, EventType::ApplicationQuit)
}

fn ignore_all(_e: &InputEvent) -> bool {
    false
}

#[test]
fn event_queue_order_and_count() {
    let mut q: EventQueue<fn(&InputEvent) -> bool> = EventQueue::new();
    assert!(event::is_empty(&q));
    event::on_key_press(&mut q, b'a');
    event::on_mouse_click(&mut q, 3, 4, MouseButton::Right);
    event::on_window_close(&mut q, 7);
    assert_eq!(event::event_count(&q), 3);
    let e = q.pop_event().unwrap();
    assert!(matches!(e.event_type, EventType::KeyPress(b'a')));
    assert_eq!(e.timestamp, 0);
    let e = q.pop_event().unwrap();
    assert!(matches!(e.event_type, EventType::MouseClick { x: 3, y: 4, button: MouseButton::Right }));
    let e = q.pop_event().unwrap();
    assert_eq!(e.target_window, Some(7));
    assert!(q.pop_event().is_none());
    assert!(event::is_empty(&q));
}

#[test]
fn event_handlers_and_processing() {
    let mut q: EventQueue<fn(&InputEvent) -> bool> = EventQueue::new();
    for _ in 0..16 {
        assert!(q.register_handler(ignore_all as fn(&InputEvent) -> bool));
    }
    assert!(!q.register_handler(consume_quit as fn(&InputEvent) -> bool));
    event::on_quit(&mut q);
    event::on_mouse_move(&mut q, 1, 2);
    event::process_events(&mut q);
    assert!(event::is_empty(&q));
    assert_eq!(event::event_count(&q), 0);
    q.dispatch(InputEvent::new(EventType::WindowFocus));
}

#[test]
fn widgets_behave() {
    let mut b = Button::new(10, 10, 20, 10);
    assert!(b.hit_test(10, 10));
    assert!(!b.hit_test(30, 10));
    b.set_label("OK");
    assert_eq!(b.label_len, 2);
    let mut t = TextBox::new(0, 0, 50, 10);
    t.insert_char(b'h');
    t.insert_char(b'i');
    assert_eq!((t.text_len, t.cursor), (2, 2));
    t.backspace();
    assert_eq!((t.text_len, t.cursor), (1, 1));
    assert_eq!(t.text[1], b'i');
    let mut c = Checkbox::new(0, 0);
    c.toggle();
    assert!(c.checked);
    c.toggle();
    assert!(!c.checked);
    let mut s = Slider::new(0, 0, 100, 0, 10);
    assert_eq!(s.current_value, 0);
    s.set_value(5);
    assert_eq!(s.current_value, 5);
    s.set_value(20);
    assert_eq!(s.current_value, 10);
    s.set_value(-3);
    assert_eq!(s.current_value, 0);
    let l = Label::new(1, 2, "hey");
    assert_eq!(l.text_len, 3);
    assert_eq!(&l.text[..3], b"hey");
}

#[test]
fn widgets_render() {
    let mut fb = screen(32, 32);
    let mut b = Button::new(0, 0, 10, 10);
    b.state = WidgetState::Pressed;
    b.render(&mut fb);
    assert_eq!(px(&fb, 5, 5), 0x6464_64FF);
    assert_eq!(px(&fb, 0, 0), 0x0000_00FF);
    let p = Panel::new(20, 20, 5, 5);
    p.render(&mut fb);
    assert_eq!(px(&fb, 22, 22), 0x8080_80FF);
    let mut c = Checkbox::new(0, 12);
    c.toggle();
    c.render(&mut fb);
    assert_eq!(px(&fb, 5, 20), 0x0000_00FF);
    let mut t = TextBox::new(12, 0, 8, 8);
    t.state = WidgetState::Focused;
    t.render(&mut fb);
    assert_eq!(px(&fb, 14, 3), 0xFFFF_FFFF);
    assert_eq!(px(&fb, 12, 0), 0x0000_00FF);
}

#[test]
fn desktop_geometry_and_render() {
    let d = Desktop::new(100, 100);
    assert_eq!(d.get_taskbar_rect(), (0, 60, 100, 40));
    assert_eq!(d.get_client_area(), (0, 0, 100, 60));
    let mut fb = screen(100, 100);
    d.render(&mut fb);
    assert_eq!(px(&fb, 5, 5), 0x3C78_C8FF);
    assert_eq!(px(&fb, 5, 70), 0x8080_80FF);
    assert_eq!(px(&fb, 5, 60), 0x0000_00FF);
    let mut slot: Option<Desktop> = None;
    desktop::init(&mut slot, &mut fb);
    assert_eq!(desktop::get_desktop(&slot).unwrap().width, 100);
    desktop::update_status("12:00");
}

#[test]
fn wallpaper_checkerboard() {
    let mut fb = screen(64, 64);
    desktop::draw_wallpaper(&mut fb);
    assert_eq!(px(&fb, 0, 0), 0x326E_BEFF);
    assert_eq!(px(&fb, 31, 31), 0x326E_BEFF);
    assert_eq!(px(&fb, 32, 0), 0x3C78_C8FF);
    assert_eq!(px(&fb, 0, 32), 0x326E_BEFF);
    assert_eq!(px(&fb, 40, 40), 0x3C78_C8FF);
    let mut none: Option<FramebufferDriver> = None;
    desktop::draw_wallpaper(&mut none);
    assert!(none.is_none());
}

#[test]
fn about_app_launch_and_close() {
    let mut reg = AppRegistry::new();
    let mut wm = WindowManager::new();
    let mut fb = screen(700, 500);
    let mut about = about::launch(&mut reg, &mut wm, &mut fb).unwrap();
    assert_eq!(about.id, 1);
    assert_eq!(about.window_id, 1);
    assert_eq!(about.version, "0.1.0");
    assert_eq!(app::get_app_state(&reg, 1), Some(AppState::Running));
    let w = wm.get_window(1).unwrap();
    assert_eq!(&w.title[..12], b"About Vorzax");
    assert_eq!(w.rect.width, 560);
    assert_eq!(px(&fb, 80, 72), 0x0000_00FF);
    assert_eq!(px(&fb, 90, 80), 0x1248_8EFF);
    assert_eq!(px(&fb, 100, 300), 0xF2F6_FAFF);
    assert_eq!(px(&fb, 150, 191), 0x0080_60FF);
    about.handle_close(&mut reg, &mut wm);
    assert_eq!(app::get_app_state(&reg, 1), None);
    assert!(wm.get_window(1).is_none());
}

#[test]
fn about_info_lines() {
    let a = AboutApp::new(1, 2);
    let lines = a.info_text();
    assert_eq!(lines.len(), 8);
    assert_eq!(lines[0], "VORZAX OS");
    assert_eq!(lines[7], "KERNEL MONOLITHIC");
}

#[test]
fn about_launch_without_window_slot() {
    let mut reg = AppRegistry::new();
    let mut wm = WindowManager::new();
    for _ in 0..16 {
        wm.create_window(0, 0, 30, 30);
    }
    let mut fb: Option<FramebufferDriver> = None;
    assert!(about::launch(&mut reg, &mut wm, &mut fb).is_none());
    assert_eq!(app::get_app_state(&reg, 1), None);
    assert_eq!(app::register_app(&mut reg, "again"), Some(2));
}

#[test]
fn gui_init_draws_desktop() {
    let mut fb = screen(80, 60);
    let mut d: Option<Desktop> = None;
    vorzax::gui::init(&mut d, &mut fb);
    assert!(d.is_some());
    assert_eq!(px(&fb, 1, 1), Color::new(60, 120, 200, 255).to_u32());
    let _ = framebuffer::color_black();
}

#[test]
fn event_queue_holds_256_events() {
    let mut q: EventQueue<fn(&InputEvent) -> bool> = EventQueue::new();
    for i in 0..256u32 {
        q.push_event(InputEvent::new(EventType::KeyPress(i as u8)));
    }
    assert_eq!(event::event_count(&q), 256);
    q.push_event(InputEvent::new(EventType::ApplicationQuit));
    assert_eq!(event::event_count(&q), 256);
    for i in 0..256u32 {
        let e = q.pop_event().unwrap();
        assert!(matches!(e.event_type, EventType::KeyPress(k) if k == i as u8));
    }
    assert!(q.pop_event().is_none());
    assert!(event::is_empty(&q));
    for round in 0..3u8 {
        for i in 0..200u8 {
            event::on_key_release(&mut q, i);
        }
        for i in 0..200u8 {
            let e = q.pop_event().unwrap();
            assert!(matches!(e.event_type, EventType::KeyRelease(k) if k == i));
        }
        assert!(event::is_empty(&q), "round {}", round);
    }
}

static SEEN_FIRST: std::sync::atomic::AtomicUsize = std::sync::atomic::AtomicUsize::new(0);
static SEEN_SECOND: std::sync::atomic::AtomicUsize = std::sync::atomic::AtomicUsize::new(0);
static SEEN_THIRD: std::sync::atomic::AtomicUsize = std::sync::atomic::AtomicUsize::new(0);

fn first_declines(_e: &InputEvent) -> bool {
    SEEN_FIRST.fetch_add(1, std::sync::atomic::Ordering::SeqCst);
    false
}

fn second_consumes(_e: &InputEvent) -> bool {
    SEEN_SECOND.fetch_add(1, std::sync::atomic::Ordering::SeqCst);
    true
}

fn third_never_sees(_e: &InputEvent) -> bool {
    SEEN_THIRD.fetch_add(1, std::sync::atomic::Ordering::SeqCst);
    true
}

#[test]
fn dispatch_stops_at_first_consumer() {
    let mut q: EventQueue<fn(&InputEvent) -> bool> = EventQueue::new();
    q.register_handler(first_declines as fn(&InputEvent) -> bool);
    q.register_handler(second_consumes as fn(&InputEvent) -> bool);
    q.register_handler(third_never_sees as fn(&InputEvent) -> bool);
    event::on_key_press(&mut q, b'k');
    event::on_key_press(&mut q, b'j');
    event::process_events(&mut q);
    assert_eq!(SEEN_FIRST.load(std::sync::atomic::Ordering::SeqCst), 2);
    assert_eq!(SEEN_SECOND.load(std::sync::atomic::Ordering::SeqCst), 2);
    assert_eq!(SEEN_THIRD.load(std::sync::atomic::Ordering::SeqCst), 0);
}
