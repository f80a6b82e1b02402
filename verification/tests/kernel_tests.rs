use vorzax::driver::storage::{self, StorageCache};
use vorzax::kernel::interrupt::{handle_sync_exception, irq_enabled, ExceptionClass, ExceptionInfo, SyncException};
use vorzax::kernel::memory::{self, BumpAllocator, PageTable, PageTableEntry, VirtAddr};
use vorzax::kernel::process::{self, ProcessError, ProcessState, ProcessTable};
use vorzax::kernel::scheduler::{self, SchedulePolicy, Scheduler, SchedulerError};
use vorzax::kernel::user::{self, LoginError, UserError, UserManager, UserRole, UserStatus};
use vorzax::kernel::{self as kernel, KernelState};

#[test]
fn page_table_entry_fields() {
    let e = PageTableEntry::new(0x1234_5678, 0x3);
    assert_eq!(e.get_address(), 0x1234_5000);
    assert!(e.is_valid());
    let f = PageTableEntry::new(0x1234_5678, 0x2);
    assert!(!f.is_valid());
}

#[test]
fn virt_addr_indices() {
    let v = VirtAddr::new(0x0000_0080_4020_1234);
    assert_eq!(v.l0_index(), 1);
    assert_eq!(v.l1_index(), 1);
    assert_eq!(v.l2_index(), 1);
    assert_eq!(v.l3_index(), 1);
    assert_eq!(v.page_offset(), 0x234);
}

#[test]
fn map_translate_unmap() {
    let mut table = PageTable::new();
    let virt = 0x0000_0080_0000_1234u64;
    assert_eq!(memory::virt_to_phys(&table, virt), None);
    memory::map_page(&mut table, virt, 0x4000_0000, 0);
    assert_eq!(memory::virt_to_phys(&table, virt), Some(0x4000_0234));
    memory::unmap_page(&mut table, virt);
    assert_eq!(memory::virt_to_phys(&table, virt), None);
}

#[test]
fn bump_allocator_aligns_and_runs_out() {
    let mut heap = BumpAllocator::new(0x1000, 64);
    assert_eq!(heap.allocate(1), Some(0x1000));
    assert_eq!(heap.allocate(16), Some(0x1010));
    assert_eq!(heap.allocate(40), None);
    assert_eq!(heap.allocate(32), Some(0x1020));
    heap.free(0x1000, 1);
    assert_eq!(heap.allocate(1), None);
}

#[test]
fn kernel_heap_init() {
    let mut heap = BumpAllocator::new(0, 0);
    memory::init(&mut heap);
    assert_eq!(memory::allocate(&mut heap, 8), Some(0xFFFF_0000_0000_0000));
    assert_eq!(memory::allocate(&mut heap, 8), Some(0xFFFF_0000_0000_0010));
}

#[test]
fn scheduler_queue_is_fifo() {
    let mut s = Scheduler::new(SchedulePolicy::RoundRobin);
    assert!(s.is_empty());
    assert_eq!(s.enqueue(7), Ok(()));
    assert_eq!(s.enqueue(3), Ok(()));
    assert_eq!(s.enqueue(7), Err(SchedulerError::QueueFull));
    assert_eq!(s.len(), 2);
    assert_eq!(s.dequeue(), Some(7));
    assert_eq!(s.select_next(), Some(3));
    assert_eq!(s.dequeue(), None);
}

#[test]
fn scheduler_queue_full() {
    let mut s = Scheduler::new(SchedulePolicy::Fifo);
    for pid in 0..process::MAX_PROCESSES as u64 {
        assert_eq!(s.enqueue(pid + 1), Ok(()));
    }
    assert_eq!(s.enqueue(1000), Err(SchedulerError::QueueFull));
}

#[test]
fn scheduler_ticks_and_stats() {
    let mut s = Scheduler::new(SchedulePolicy::RoundRobin);
    scheduler::init(&mut s);
    s.tick();
    s.tick();
    assert_eq!(scheduler::ticks(&s), 2);
    assert_eq!(scheduler::add_ready_process(&mut s, 5), Ok(()));
    let st = scheduler::get_stats(&s);
    assert_eq!(st.total_ticks, 2);
    assert_eq!(st.processes_ready, 1);
    assert_eq!(st.current_process, None);
}

#[test]
fn spawn_and_switch() {
    let mut table = ProcessTable::new();
    let mut s = Scheduler::new(SchedulePolicy::RoundRobin);
    assert_eq!(process::spawn_process(&mut table, &mut s, 0, 1, "zero"), Err(ProcessError::InvalidEntry));
    let a = process::spawn_process(&mut table, &mut s, 0x8000, 1, "first").unwrap();
    let b = process::spawn_process(&mut table, &mut s, 0x8000, 1, "second").unwrap();
    assert_eq!((a, b), (1, 2));
    let pa = process::get_process(&table, a).unwrap();
    assert_eq!(pa.state, ProcessState::Ready);
    assert_eq!(pa.name_bytes(), b"first");
    scheduler::switch_context(&mut s, &mut table);
    assert_eq!(scheduler::current_process(&s), Some(a));
    assert_eq!(process::get_process(&table, a).unwrap().state, ProcessState::Running);
    scheduler::switch_context(&mut s, &mut table);
    assert_eq!(scheduler::current_process(&s), Some(a));
    for _ in 0..8 {
        scheduler::switch_context(&mut s, &mut table);
    }
    assert_eq!(scheduler::ticks(&s), 10);
    assert_eq!(scheduler::current_process(&s), Some(b));
    assert_eq!(process::get_process(&table, a).unwrap().state, ProcessState::Ready);
    assert_eq!(process::get_process(&table, b).unwrap().state, ProcessState::Running);
}

#[test]
fn terminate_and_remove() {
    let mut table = ProcessTable::new();
    let mut s = Scheduler::new(SchedulePolicy::RoundRobin);
    let a = process::spawn_process(&mut table, &mut s, 0x8000, 1, "a").unwrap();
    assert!(process::terminate_process(&mut table, a));
    assert_eq!(process::get_process(&table, a).unwrap().state, ProcessState::Terminated);
    assert!(process::remove_process(&mut table, a));
    assert!(process::get_process(&table, a).is_none());
    assert!(!process::remove_process(&mut table, a));
}

#[test]
fn spawn_tabs_report() {
    let mut table = ProcessTable::new();
    let mut s = Scheduler::new(SchedulePolicy::RoundRobin);
    let r = process::spawn_process_tabs(&mut table, &mut s, 0x8000, 3);
    assert_eq!(r.requested, 3);
    assert_eq!(r.spawned, 3);
    assert_eq!(r.first_pid, Some(1));
    assert_eq!(r.last_pid, Some(3));
    assert!(r.failed.is_none());
    let z = process::spawn_process_tabs(&mut table, &mut s, 0x8000, 0);
    assert_eq!(z.failed, Some(ProcessError::InvalidCount));
    let st = process::get_stats(&table);
    assert_eq!(st.used_slots, 3);
    assert_eq!(st.ready, 3);
}

#[test]
fn sync_exception_dispatch() {
    let svc = (0b010001u64 << 26) | 0x42;
    assert_eq!(handle_sync_exception(svc, 0, 0), SyncException::Svc { immediate: 0x42 });
    let dabt = 0b011001u64 << 26;
    assert_eq!(handle_sync_exception(dabt, 0xdead, 0), SyncException::DataAbort { far: 0xdead, esr: dabt });
    let iabt = 0b011000u64 << 26;
    assert_eq!(handle_sync_exception(iabt, 0xbeef, 0), SyncException::InstructionAbort { far: 0xbeef, esr: iabt });
    let other = 0b111111u64 << 26;
    assert_eq!(handle_sync_exception(other, 0, 0), SyncException::Unknown { esr: other, class: 0b111111 });
    let info = ExceptionInfo::from_esr(svc | (1 << 25), 7);
    assert_eq!(info.exception_class, 0b010001);
    assert_eq!(info.instruction_length, 1);
    assert_eq!(info.fault_address, 7);
    assert_eq!(ExceptionClass::IrqInterrupt.code(), 0b100001);
}

#[test]
fn irq_mask_bit() {
    assert!(irq_enabled(0));
    assert!(!irq_enabled(1 << 7));
}

#[test]
fn users_create_and_login() {
    let mut m = UserManager::empty();
    assert_eq!(m.create_user("al", "secret1", UserRole::Standard), Err(UserError::InvalidUsername));
    assert_eq!(m.create_user("alice", "short", UserRole::Standard), Err(UserError::InvalidPassword));
    assert_eq!(m.create_user("al ice", "secret1", UserRole::Standard), Err(UserError::InvalidUsername));
    assert_eq!(m.create_user("alice", "secret1", UserRole::Standard), Ok(1));
    assert_eq!(m.create_user("alice", "secret2", UserRole::Standard), Err(UserError::UserExists));
    assert_eq!(m.user_count(), 1);
    assert!(matches!(m.login("alice", "wrong!!"), Err(LoginError::InvalidCredentials)));
    assert!(matches!(m.login("bob", "secret1"), Err(LoginError::InvalidCredentials)));
    let s = m.login("alice", "secret1").unwrap();
    assert_eq!(s.user_id, 1);
    assert_eq!(s.role, UserRole::Standard);
    assert_eq!(m.current_user().unwrap().id, 1);
    m.logout();
    assert!(m.current_session().is_none());
}

#[test]
fn users_lock_after_failures() {
    let mut m = UserManager::empty();
    m.create_user("carol", "secret1", UserRole::Standard).unwrap();
    for _ in 0..5 {
        assert!(matches!(m.login("carol", "nope-nope"), Err(LoginError::InvalidCredentials)));
    }
    assert!(matches!(m.login("carol", "secret1"), Err(LoginError::UserLocked)));
}

#[test]
fn users_admin_rights() {
    let mut m = UserManager::empty();
    m.reset_with_default_admin();
    let bob = m.create_user("bob", "secret1", UserRole::Standard).unwrap();
    assert_eq!(m.set_status(bob, UserStatus::Disabled), Err(UserError::PermissionDenied));
    m.login("admin", "admin123").unwrap();
    assert_eq!(m.set_status(bob, UserStatus::Disabled), Ok(()));
    assert!(matches!(m.login("bob", "secret1"), Err(LoginError::UserDisabled)));
    assert_eq!(m.set_role(99, UserRole::Admin), Err(UserError::UserNotFound));
    assert_eq!(m.delete_user(1), Err(UserError::PermissionDenied));
    m.login("admin", "admin123").unwrap();
    assert_eq!(m.delete_user(bob), Ok(()));
    assert_eq!(m.user_count(), 1);
}

#[test]
fn users_change_password() {
    let mut m = UserManager::empty();
    let id = m.create_user("dave", "secret1", UserRole::Standard).unwrap();
    assert_eq!(m.change_password(id, "bad-old", "secret2"), Err(UserError::PermissionDenied));
    assert_eq!(m.change_password(id, "secret1", "x"), Err(UserError::InvalidPassword));
    assert_eq!(m.change_password(id, "secret1", "secret2"), Ok(()));
    assert!(matches!(m.login("dave", "secret1"), Err(LoginError::InvalidCredentials)));
    assert!(m.login("dave", "secret2").is_ok());
}

#[test]
fn users_save_then_load() {
    let mut storage = StorageCache::new();
    storage::init(&mut storage);
    let mut m = UserManager::empty();
    m.create_user("erin", "secret1", UserRole::Admin).unwrap();
    m.create_user("frank", "secret2", UserRole::Standard).unwrap();
    assert_eq!(m.save_to_storage(&mut storage), Ok(()));
    let mut n = UserManager::empty();
    assert_eq!(n.load_from_storage(&mut storage), Ok(()));
    assert_eq!(n.user_count(), 2);
    assert!(n.login("frank", "secret2").is_ok());
    assert!(matches!(n.login("erin", "secret2"), Err(LoginError::InvalidCredentials)));
}

#[test]
fn users_load_from_blank_disk_is_corrupt() {
    let mut storage = StorageCache::new();
    storage::init(&mut storage);
    let mut m = UserManager::empty();
    assert_eq!(m.load_from_storage(&mut storage), Err(UserError::CorruptDatabase));
    let mut none = StorageCache::new();
    assert_eq!(m.save_to_storage(&mut none), Err(UserError::StorageUnavailable));
}

#[test]
fn users_default_on_blank_disk() {
    let mut storage = StorageCache::new();
    storage::init(&mut storage);
    let mut m = UserManager::empty();
    assert_eq!(user::load_or_create_default(&mut m, &mut storage), Ok(()));
    assert_eq!(user::user_count(&m), 1);
    assert!(user::login(&mut m, &mut storage, "admin", "admin123").is_ok());
    assert_eq!(user::register_user(&mut m, &mut storage, "gina", "secret1"), Ok(2));
}

#[test]
fn kernel_init_state() {
    let mut k = KernelState::new();
    kernel::init(&mut k);
    assert_eq!(user::user_count(&k.users), 1);
    assert_eq!(scheduler::current_process(&k.scheduler), None);
}

#[test]
fn users_table_full() {
    let mut m = UserManager::empty();
    for i in 0..64u32 {
        let name = format!("user{:02}", i);
        assert_eq!(m.create_user(&name, "secret1", UserRole::Standard), Ok(i + 1));
    }
    assert_eq!(m.create_user("one_more", "secret1", UserRole::Standard), Err(UserError::UserTableFull));
}

#[test]
fn process_table_and_queue_full() {
    let mut table = ProcessTable::new();
    let mut s = Scheduler::new(SchedulePolicy::RoundRobin);
    for _ in 0..process::MAX_PROCESSES {
        assert!(process::spawn_process(&mut table, &mut s, 0x8000, 1, "p").is_ok());
    }
    assert_eq!(process::spawn_process(&mut table, &mut s, 0x8000, 1, "p"), Err(ProcessError::ProcessTableFull));

    let mut table = ProcessTable::new();
    let mut s = Scheduler::new(SchedulePolicy::RoundRobin);
    for pid in 0..process::MAX_PROCESSES as u64 {
        assert_eq!(scheduler::add_ready_process(&mut s, 1000 + pid), Ok(()));
    }
    assert_eq!(process::spawn_process(&mut table, &mut s, 0x8000, 1, "p"), Err(ProcessError::SchedulerFull));
    assert!(process::get_process(&table, 1).is_none());
}

#[test]
fn open_100_tabs_after_init() {
    let mut table = ProcessTable::new();
    let mut s = Scheduler::new(SchedulePolicy::RoundRobin);
    process::init(&mut table);
    scheduler::init(&mut s);
    let r = process::open_100_tabs(&mut table, &mut s, 0x4000_0000);
    assert_eq!(r.requested, 100);
    assert_eq!(r.spawned, 100);
    assert_eq!(r.first_pid, Some(1));
    assert_eq!(r.last_pid, Some(100));
    assert!(r.failed.is_none());
    assert_eq!(process::get_stats(&table).ready, 100);
    assert_eq!(scheduler::get_stats(&s).processes_ready, 100);
}

#[test]
fn tabs_take_lowest_free_slots() {
    let mut table = ProcessTable::new();
    let mut s = Scheduler::new(SchedulePolicy::RoundRobin);
    let a = process::spawn_process(&mut table, &mut s, 0x8000, 1, "a").unwrap();
    let b = process::spawn_process(&mut table, &mut s, 0x8000, 1, "b").unwrap();
    let c = process::spawn_process(&mut table, &mut s, 0x8000, 1, "c").unwrap();
    assert!(process::remove_process(&mut table, b));
    let r = process::spawn_process_tabs(&mut table, &mut s, 0x8000, 2);
    assert_eq!(r.spawned, 2);
    assert_eq!((r.first_pid, r.last_pid), (Some(4), Some(5)));
    let ready = process::get_ready_processes(&table);
    let pids: Vec<u64> = ready.iter().flatten().map(|p| p.pid).collect();
    assert_eq!(pids, vec![a, 4, c, 5]);
}
