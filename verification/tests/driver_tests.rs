use vorzax::driver::event_ring::EventRing;
use vorzax::driver::framebuffer::{self, Color, FramebufferDriver, PixelFormat};
use vorzax::driver::input::{self, InputEvent};
use vorzax::driver::keyboard::{self, scancode_to_ascii, KeyState, KeyboardDriver};
use vorzax::driver::mouse::{self, MouseButton, MouseDriver, MouseEventKind};
use vorzax::driver::storage::{self, StorageCache, StorageDevice, StorageError, VirtualBlockDevice, BLOCK_SIZE};
use vorzax::driver::timer::{self, TimerDriver};
use vorzax::driver::uart::{self, UartDriver, UartRegisters};
use vorzax::driver::{self as driver, Drivers};

#[test]
fn color_packing() {
    assert_eq!(Color::new(0x12, 0x34, 0x56, 0x78).to_u32(), 0x1234_5678);
    assert_eq!(framebuffer::color_red().to_u32(), 0xFF00_00FF);
    assert_eq!(PixelFormat::RGB565.bits_per_pixel(), 16);
    assert_eq!(PixelFormat::BGRA8888.bits_per_pixel(), 32);
    assert_eq!(PixelFormat::RGB888.bits_per_pixel(), 24);
}

#[test]
fn framebuffer_new_mode() {
    let fb = FramebufferDriver::new(8, 4, 0x1000);
    assert_eq!(fb.mode.width, 8);
    assert_eq!(fb.mode.stride, 32);
    assert_eq!(fb.buffer, 0x1000);
    assert_eq!(fb.back_buffer, 0x1000 + 4 * 32);
    assert_eq!(fb.pixel(7, 3), 0);
}

#[test]
fn framebuffer_pixels_and_rects() {
    let mut fb = FramebufferDriver::new(8, 8, 0);
    let red = framebuffer::color_red();
    fb.put_pixel(2, 3, red);
    fb.put_pixel(100, 3, red);
    assert_eq!(fb.pixel(2, 3), red.to_u32());
    assert_eq!(fb.pixel(3, 2), 0);
    let blue = framebuffer::color_blue();
    fb.fill_rect(4, 4, 2, 2, blue);
    assert_eq!(fb.pixel(4, 4), blue.to_u32());
    assert_eq!(fb.pixel(5, 5), blue.to_u32());
    assert_eq!(fb.pixel(6, 6), 0);
    let green = framebuffer::color_green();
    fb.draw_rect(0, 0, 4, 3, green);
    assert_eq!(fb.pixel(0, 0), green.to_u32());
    assert_eq!(fb.pixel(3, 2), green.to_u32());
    assert_eq!(fb.pixel(1, 1), 0);
    fb.clear(framebuffer::color_white());
    assert_eq!(fb.pixel(2, 3), 0xFFFF_FFFF);
}

#[test]
fn framebuffer_line_endpoints() {
    let mut fb = FramebufferDriver::new(10, 10, 0);
    let c = framebuffer::color_white().to_u32();
    fb.draw_line(1, 1, 7, 4, framebuffer::color_white());
    assert_eq!(fb.pixel(1, 1), c);
    assert_eq!(fb.pixel(7, 4), c);
    assert_eq!(fb.pixel(0, 0), 0);
    assert_eq!(fb.pixel(8, 5), 0);
    fb.draw_line(5, 9, 5, 6, framebuffer::color_white());
    for y in 6..10 {
        assert_eq!(fb.pixel(5, y), c);
    }
    fb.draw_line(9, 0, 9, 0, framebuffer::color_white());
    assert_eq!(fb.pixel(9, 0), c);
}

#[test]
fn framebuffer_swap() {
    let mut fb = FramebufferDriver::new(4, 4, 0x100);
    fb.put_pixel(0, 0, framebuffer::color_red());
    fb.swap_buffers();
    assert_eq!(fb.buffer, 0x100 + 64);
    assert_eq!(fb.pixel(0, 0), 0);
    fb.swap_buffers();
    assert_eq!(fb.pixel(0, 0), framebuffer::color_red().to_u32());
}

#[test]
fn framebuffer_module_functions() {
    let mut fb: Option<FramebufferDriver> = None;
    assert!(framebuffer::get_display_mode(&fb).is_none());
    framebuffer::put_pixel(&mut fb, 1, 1, framebuffer::color_red());
    assert!(fb.is_none());
    framebuffer::init(&mut fb);
    let mode = framebuffer::get_display_mode(&fb).unwrap();
    assert_eq!((mode.width, mode.height, mode.stride), (1920, 1080, 7680));
    framebuffer::fill_rect(&mut fb, 10, 10, 3, 3, framebuffer::color_gray());
    assert_eq!(fb.as_ref().unwrap().pixel(11, 11), 0x8080_80FF);
}

#[test]
fn event_ring_fifo_and_capacity() {
    let mut ring: EventRing<u32> = EventRing::new();
    assert!(ring.push(1));
    assert!(ring.push(2));
    assert_eq!(ring.len(), 2);
    assert_eq!(ring.pop(), Some(1));
    assert_eq!(ring.pop(), Some(2));
    assert_eq!(ring.pop(), None);
    for i in 0..128u32 {
        assert!(ring.push(i));
    }
    assert!(!ring.push(999));
    assert_eq!(ring.pop(), Some(0));
}

#[test]
fn keyboard_scancodes() {
    assert_eq!(scancode_to_ascii(0x02), Some(b'1'));
    assert_eq!(scancode_to_ascii(0x1E), Some(b'a'));
    assert_eq!(scancode_to_ascii(0x39), Some(b' '));
    assert_eq!(scancode_to_ascii(0x7F), None);
    let mut kb = KeyboardDriver::new();
    keyboard::init(&mut kb);
    assert!(keyboard::push_scancode(&mut kb, 0x1E, true));
    assert_eq!(keyboard::pending_events(&kb), 1);
    let e = keyboard::read_event(&mut kb).unwrap();
    assert_eq!(e.scancode, 0x1E);
    assert_eq!(e.ascii, Some(b'a'));
    assert_eq!(e.state, KeyState::Pressed);
    assert!(keyboard::read_event(&mut kb).is_none());
    assert_eq!(keyboard::dropped_events(&kb), 0);
}

#[test]
fn mouse_moves_saturate() {
    let mut m = MouseDriver::new();
    mouse::init(&mut m);
    assert!(mouse::move_by(&mut m, 10, -5));
    assert_eq!(mouse::position(&m), (10, -5));
    assert!(mouse::move_by(&mut m, i32::MAX, i32::MIN));
    assert_eq!(mouse::position(&m), (i32::MAX, i32::MIN));
    assert!(mouse::button(&mut m, MouseButton::Left, true));
    assert_eq!(mouse::pending_events(&m), 3);
    let first = mouse::read_event(&mut m).unwrap();
    assert_eq!((first.x, first.y, first.dx, first.dy), (10, -5, 10, -5));
    assert_eq!(first.kind, MouseEventKind::Move);
    mouse::read_event(&mut m);
    let click = mouse::read_event(&mut m).unwrap();
    assert_eq!(click.kind, MouseEventKind::ButtonPress(MouseButton::Left));
}

#[test]
fn input_prefers_keyboard() {
    let mut kb = KeyboardDriver::new();
    let mut m = MouseDriver::new();
    input::init(&mut kb, &mut m);
    mouse::move_by(&mut m, 1, 1);
    keyboard::push_scancode(&mut kb, 0x02, true);
    assert_eq!(input::pending_events(&kb, &m), 2);
    assert!(matches!(input::poll_event(&mut kb, &mut m), Some(InputEvent::Keyboard(_))));
    assert!(matches!(input::poll_event(&mut kb, &mut m), Some(InputEvent::Mouse(_))));
    assert!(input::poll_event(&mut kb, &mut m).is_none());
}

#[test]
fn storage_round_trip_and_errors() {
    let mut s = StorageCache::new();
    let mut buf = [0u8; BLOCK_SIZE];
    assert_eq!(s.read(0, &mut buf), Err(StorageError::ReadError));
    storage::init(&mut s);
    let mut small = [0u8; 16];
    assert_eq!(storage::read_block(&mut s, 0, &mut small), Err(StorageError::BufferTooSmall));
    let mut data = [0u8; BLOCK_SIZE];
    data[0] = 7;
    data[BLOCK_SIZE - 1] = 9;
    assert_eq!(storage::write_block(&mut s, 5, &data), Ok(()));
    assert_eq!(storage::read_block(&mut s, 5, &mut buf), Ok(()));
    assert_eq!(buf[0], 7);
    assert_eq!(buf[BLOCK_SIZE - 1], 9);
    assert_eq!(storage::write_block(&mut s, storage::DEFAULT_TOTAL_BLOCKS, &data), Err(StorageError::InvalidBlock));
    let g = storage::get_geometry(&s);
    assert_eq!(g.block_size, BLOCK_SIZE);
    assert_eq!(g.total_blocks, storage::DEFAULT_TOTAL_BLOCKS);
    let st = storage::get_stats(&s);
    assert_eq!(st.writes, 2);
    assert!(st.reads >= 1);
}

#[test]
fn block_device_geometry() {
    let d = VirtualBlockDevice::new(10, 0x6000_0000);
    let g = d.geometry();
    assert_eq!(g.total_blocks, 10);
    assert_eq!(g.total_bytes, 10 * BLOCK_SIZE as u64);
    assert_eq!(g.base_addr, 0x6000_0000);
}

#[test]
fn timer_counts_ticks() {
    let mut t = TimerDriver::new();
    timer::init(&mut t);
    timer::tick(&mut t);
    timer::tick(&mut t);
    let info = timer::get_info(&t);
    assert_eq!(info.ticks, 2);
    assert_eq!(info.frequency_hz, timer::PORTABLE_COUNTER_HZ);
    assert_eq!(timer::uptime_millis(&t), 0);
}

#[test]
fn uart_programming_and_flags() {
    let mut regs = UartRegisters::new();
    let mut u: Option<UartDriver> = None;
    assert!(!uart::is_readable(&u, &regs));
    uart::init(&mut u, &mut regs, 115200);
    assert_eq!(regs.cr.read(), 0x0301);
    assert_eq!(regs.ibrd.read(), 13);
    assert_eq!(regs.lcr_h.read(), 0x70);
    assert!(uart::is_readable(&u, &regs));
    let d = u.as_ref().unwrap();
    assert!(d.is_tx_ready(&regs));
    assert!(d.try_putc(&mut regs, b'Z'));
    assert_eq!(regs.data.read(), b'Z' as u32);
    assert_eq!(d.try_getc(&regs), Some(b'Z'));
    regs.fr.write(0x30);
    assert!(!d.try_putc(&mut regs, b'Q'));
    assert_eq!(regs.data.read(), b'Z' as u32);
    assert_eq!(d.try_getc(&regs), None);
}

#[test]
fn drivers_init() {
    let mut d = Drivers::new();
    driver::init(&mut d);
    assert!(d.uart.is_some());
    let mode = framebuffer::get_display_mode(&d.framebuffer).unwrap();
    assert_eq!(mode.width, 1920);
    assert_eq!(keyboard::pending_events(&d.keyboard), 0);
}

#[test]
fn timer_uptime_from_counter() {
    let mut t = TimerDriver::new();
    assert_eq!(t.uptime_millis(), 0);
    t.init_with(24_000_000, 1_000);
    assert_eq!(t.uptime_millis_at(1_000 + 24_000_000), 1_000);
    assert_eq!(t.uptime_millis_at(1_000 + 12_000), 0);
    assert_eq!(t.uptime_millis_at(1_000 + 24_000), 1);
    assert_eq!(t.uptime_millis_at(500), 0);
    assert_eq!(t.uptime_millis_at(u64::MAX), u64::MAX / 24_000_000);
    let info = t.info();
    assert_eq!((info.frequency_hz, info.boot_counter, info.ticks), (24_000_000, 1_000, 0));
}

#[test]
fn storage_write_without_device() {
    let mut s = StorageCache::new();
    let data = [1u8; BLOCK_SIZE];
    assert_eq!(s.write(0, &data), Err(StorageError::WriteError));
    let short = [1u8; 8];
    assert_eq!(s.write(0, &short), Err(StorageError::BufferTooSmall));
}

#[test]
fn storage_cache_stays_coherent() {
    let mut s = StorageCache::new();
    storage::init(&mut s);
    let first = [3u8; BLOCK_SIZE];
    let second = [4u8; BLOCK_SIZE];
    let mut buf = [0u8; BLOCK_SIZE];
    assert_eq!(storage::write_block(&mut s, 5, &first), Ok(()));
    assert_eq!(storage::read_block(&mut s, 5, &mut buf), Ok(()));
    assert_eq!(buf, first);
    assert_eq!(storage::write_block(&mut s, 5, &second), Ok(()));
    assert_eq!(storage::read_block(&mut s, 5, &mut buf), Ok(()));
    assert_eq!(buf, second);
    let mut raw = [0u8; BLOCK_SIZE];
    let device = s.attached_device().unwrap();
    assert_eq!(device.read_block(5, &mut raw), Ok(()));
    assert_eq!(raw, second);
    assert_eq!(device.read_block(6, &mut raw), Ok(()));
    assert_eq!(raw, [0u8; BLOCK_SIZE]);
    let st = storage::get_stats(&s);
    assert_eq!(st.reads, 2);
    assert_eq!(st.cache_hits + st.cache_misses, st.reads);
}

#[test]
fn no_device_attached() {
    let s = StorageCache::new();
    assert!(s.attached_device().is_none());
}
