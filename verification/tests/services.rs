use kernel::framebuffer::{
    fill_rect_buf, glyph, phase351_framebuffer_smoke, phase355_font_smoke, set_mode_active, vga_palette_entry,
    FramebufferState, BUFFER_LEN, COLOR_CURSOR, WIDTH,
};
use kernel::desktop_shell::{render_launcher, ShellState};
use kernel::framebuffer::draw_text_buf;
use kernel::mouse::{cursor_position, event_count, mark_initialized, poll_event, push_packet, smoke_mouse, MouseEvent, MouseState};
use kernel::native_manifest::{demo_manifest, load_native_manifest, smoke_g4_smoke, smoke_scoped_grants, ManifestState, NativeManifestV1, ScopedGrant};
use kernel::kernel_object::Rights;
use kernel::security::{can_manage_process, smoke_access_policy, Credentials};
use kernel::service_loader::{
    charge_mem_budget, check_mem_budget, e00_release_admission, e00_try_admit, mem_budget_status, release_mem_budget,
    ErrorClass, LoaderState, NativeError, E00_SATURATED, ERR_MEM_BUDGET,
};

#[test]
fn memory_budget_keeps_the_fault_reserve() {
    let mut st = LoaderState::new();
    assert_eq!(mem_budget_status(&st), (256 * 1024, 0, 224 * 1024));
    assert_eq!(charge_mem_budget(&mut st, 200 * 1024), Ok(()));
    assert_eq!(mem_budget_status(&st), (256 * 1024, 200 * 1024, 24 * 1024));
    let err = charge_mem_budget(&mut st, 25 * 1024).unwrap_err();
    assert_eq!(err, NativeError { code: ERR_MEM_BUDGET, class: ErrorClass::System });
    assert_eq!(st.budget_rejects, 1);
    assert_eq!(check_mem_budget(&mut st, 24 * 1024), Ok(()));
    release_mem_budget(&mut st, 300 * 1024);
    assert_eq!(st.mem_used, 0);
}

#[test]
fn admission_window_saturates_as_a_transient_error() {
    let mut st = LoaderState::new();
    for i in 1..=4u32 {
        assert_eq!(e00_try_admit(&mut st), Ok(i));
    }
    assert_eq!(e00_try_admit(&mut st), Err(NativeError { code: E00_SATURATED, class: ErrorClass::Transient }));
    assert_eq!(st.e00_rejects, 1);
    e00_release_admission(&mut st);
    assert_eq!(e00_try_admit(&mut st), Ok(4));
}

#[test]
fn manifests_load_only_within_the_broker_rights() {
    let mut st = ManifestState::new();
    let demo = demo_manifest();
    assert!(load_native_manifest(&mut st, &demo, Rights::read_write()));
    assert!(!load_native_manifest(&mut st, &demo, Rights(Rights::READ)));
    let unnamed = NativeManifestV1 { name: "", grants: vec![ScopedGrant { kind_tag: "kernel.service", rights_mask: 1 }] };
    assert!(!load_native_manifest(&mut st, &unnamed, Rights::read_write()));
    assert_eq!((st.loads, st.rejections), (1, 2));
    assert!(smoke_g4_smoke(&mut ManifestState::new()));
    assert!(smoke_scoped_grants(&mut ManifestState::new()));
}

#[test]
fn access_policy_smoke_and_process_management() {
    assert!(smoke_access_policy());
    assert!(can_manage_process(Credentials::admin(), Credentials::shell_user()));
    assert!(can_manage_process(Credentials::shell_user(), Credentials::shell_user()));
    assert!(!can_manage_process(Credentials::guest(), Credentials::shell_user()));
}

#[test]
fn mouse_packets_move_the_cursor_and_queue_events() {
    let mut st = MouseState::new();
    assert!(!smoke_mouse(&mut st));
    mark_initialized(&mut st);
    push_packet(&mut st, 0x09);
    push_packet(&mut st, 10);
    assert_eq!(event_count(&st), 0);
    push_packet(&mut st, 0);
    assert_eq!(event_count(&st), 1);
    assert_eq!(cursor_position(&st), (319, 199));
    assert_eq!(poll_event(&mut st), Some(MouseEvent { x: 319, y: 199, buttons: 1 }));
    assert_eq!(poll_event(&mut st), None);
    assert!(smoke_mouse(&mut st));
}

#[test]
fn framebuffer_drawing_primitives() {
    let mut buf = vec![0u8; BUFFER_LEN];
    fill_rect_buf(&mut buf, 318, 198, 10, 10, 9);
    assert_eq!(buf[198 * WIDTH + 318], 9);
    assert_eq!(buf[199 * WIDTH + 319], 9);
    assert_eq!(buf[197 * WIDTH + 318], 0);
    assert_eq!(buf[198 * WIDTH + 317], 0);
    fill_rect_buf(&mut buf, 0, 0, 0, 5, 7);
    assert_eq!(buf[0], 0);
    kernel::framebuffer::draw_cursor(&mut buf, 5, 5);
    assert_eq!(buf[5 * WIDTH + 5], COLOR_CURSOR);
    assert_eq!(buf[6 * WIDTH + 6], COLOR_CURSOR);
    assert_eq!(glyph(b'A'), Some([0x0E, 0x11, 0x11, 0x1F, 0x11, 0x11, 0x11]));
    assert_eq!(glyph(b'-'), Some([0, 0, 0, 0x1F, 0, 0, 0]));
    assert_eq!(vga_palette_entry(1), (0, 0, 42));
    assert_eq!(vga_palette_entry(15), (63, 63, 63));
    assert_eq!(vga_palette_entry(100), (25, 25, 25));
}

#[test]
fn framebuffer_smokes_need_an_active_mode() {
    let mut fb = FramebufferState::new();
    let mut shell = ShellState::new();
    let mouse = MouseState::new();
    assert!(!phase351_framebuffer_smoke(&mut fb, &mut shell, &mouse));
    assert!(!phase355_font_smoke(&mut fb));
    set_mode_active(&mut fb);
    assert!(phase351_framebuffer_smoke(&mut fb, &mut shell, &mouse));
    assert!(phase355_font_smoke(&mut fb));
    assert!(fb.flush_count >= 1);
}

#[test]
fn text_draws_the_glyph_pixels_only() {
    let mut buf = vec![0u8; BUFFER_LEN];
    draw_text_buf(&mut buf, 0, 0, "A", 9);
    assert_eq!(buf[0], 0);
    assert_eq!(buf[1], 9);
    assert_eq!(buf[3], 9);
    assert_eq!(buf[4], 0);
    assert_eq!(buf[3 * WIDTH], 9);
    assert_eq!(buf[3 * WIDTH + 4], 9);
    assert_eq!(buf[7 * WIDTH + 1], 0);
    let lit = buf.iter().filter(|&&p| p == 9).count();
    assert_eq!(lit, 3 + 2 * 5 + 5);
    let mut clipped = vec![0u8; BUFFER_LEN];
    draw_text_buf(&mut clipped, 316, 0, "AA", 9);
    assert_eq!(clipped[316], 0);
    assert_eq!(clipped[317], 9);
    assert_eq!(clipped.iter().filter(|&&p| p == 9).count(), 12);
}

#[test]
fn launcher_fills_its_block_and_leaves_the_desktop() {
    let mut buf = vec![0u8; BUFFER_LEN];
    render_launcher(&mut buf);
    assert_eq!(buf[146 * WIDTH], kernel::framebuffer::COLOR_TITLEBAR);
    assert_eq!(buf[146 * WIDTH + 143], kernel::framebuffer::COLOR_TITLEBAR);
    assert_eq!(buf[146 * WIDTH + 144], 0);
    assert_eq!(buf[145 * WIDTH], 0);
}
