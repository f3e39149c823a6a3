use shell::gpu::{choose_surface, frame_step, Acquired, AlphaMode, FrameStep, NoFormat, Swapchain};

#[test]
fn first_linear_format_is_chosen() {
    assert_eq!(choose_surface(&vec![true, false, false], true), Ok((1, AlphaMode::PreMultiplied)));
    assert_eq!(choose_surface(&vec![false], false), Ok((0, AlphaMode::Opaque)));
    assert_eq!(choose_surface(&vec![true, true], true), Ok((0, AlphaMode::PreMultiplied)));
    assert_eq!(choose_surface(&vec![], true), Err(NoFormat));
}

#[test]
fn swapchain_reconfigures_only_on_a_new_size() {
    let mut s = Swapchain::new();
    assert!(!s.is_configured());
    assert!(!s.resize(0, 40));
    assert!(!s.is_configured());
    assert!(s.resize(1920, 48));
    assert!(s.is_configured());
    assert!(!s.resize(1920, 48));
    assert!(s.resize(1920, 96));
    assert_eq!(s, Swapchain { width: 1920, height: 96 });
    assert!(!s.resize(1920, 0));
    assert_eq!(s, Swapchain { width: 1920, height: 96 });
}

#[test]
fn acquired_frames() {
    assert_eq!(frame_step(Acquired::Success), FrameStep::Draw);
    assert_eq!(frame_step(Acquired::Suboptimal), FrameStep::Draw);
    assert_eq!(frame_step(Acquired::Outdated), FrameStep::Reconfigure);
    assert_eq!(frame_step(Acquired::Lost), FrameStep::Reconfigure);
    assert_eq!(frame_step(Acquired::Unavailable), FrameStep::Skip);
}
