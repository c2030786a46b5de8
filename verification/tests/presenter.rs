use torn::{
    check_stack_balance, copy_last_completed_frame, keep_completed_frame, FramePacer, Pixel,
    PixelBuffer, PixelBufferError, RenderError, SoftwareRenderError, SoftwareRenderResult,
    StackCommand, StateStack, SubmitError, WindowAction,
};

#[test]
fn frames_are_rendered_only_when_due_and_numbered_in_order() {
    let mut pacer = FramePacer::new();
    assert_eq!(pacer.begin_frame(), None);
    assert!(!pacer.apply_action(WindowAction::RequestRedraw));
    assert!(pacer.needs_render());
    assert_eq!(pacer.begin_frame(), Some(0));
    assert_eq!(pacer.begin_frame(), None);
    pacer.request_render();
    assert_eq!(pacer.begin_frame(), Some(1));
    assert!(pacer.apply_action(WindowAction::Exit));
    assert!(!pacer.apply_action(WindowAction::Continue));
    assert!(!pacer.needs_render());
}

#[test]
fn a_full_queue_keeps_the_frame_due_and_a_stopped_worker_drops_it() {
    let mut pacer = FramePacer::new();
    pacer.request_render();
    assert_eq!(pacer.begin_frame(), Some(0));
    pacer.submitted(Err(SubmitError::QueueFull));
    assert!(pacer.needs_render());
    pacer.submitted(Err(SubmitError::Stopped));
    assert!(!pacer.needs_render());
    pacer.submitted(Ok(()));
    assert!(!pacer.needs_render());
}

#[test]
fn failed_renders_keep_the_previous_frame() {
    let first = PixelBuffer::new(1, 1).expect("small buffer");
    let kept = keep_completed_frame(None, SoftwareRenderResult::new(3, Ok(first.clone())));
    assert_eq!(kept, Some(first.clone()));
    let error = SoftwareRenderError::PixelBuffer(PixelBufferError::TooLarge);
    let kept = keep_completed_frame(kept, SoftwareRenderResult::new(4, Err(error)));
    assert_eq!(kept, Some(first));
}

#[test]
fn presentation_copies_rgba_bytes_or_clears_the_surface() {
    let mut frame = PixelBuffer::new(2, 1).expect("small buffer");
    assert!(frame.set(0, 0, Pixel::rgba(1, 2, 3, 4)));
    assert!(frame.set(1, 0, Pixel::rgba(5, 6, 7, 8)));

    let mut surface = [9u8; 8];
    copy_last_completed_frame(Some(&frame), &mut surface);
    assert_eq!(surface, [1, 2, 3, 4, 5, 6, 7, 8]);

    let mut mismatched = [9u8; 6];
    copy_last_completed_frame(Some(&frame), &mut mismatched);
    assert_eq!(mismatched, [0; 6]);

    let mut empty = [9u8; 4];
    copy_last_completed_frame(None, &mut empty);
    assert_eq!(empty, [0; 4]);
}

#[test]
fn render_errors_describe_their_cause() {
    assert_eq!(
        SoftwareRenderError::PixelBuffer(PixelBufferError::TooLarge).describe(),
        "could not allocate render target: pixel buffer dimensions are too large"
    );
    assert_eq!(
        SoftwareRenderError::Render(torn::RenderError::UnmatchedSave).describe(),
        "could not render display list: display list ended with an unbalanced save"
    );
    assert_eq!(
        torn::ReceiveError::Stopped.describe(),
        "software render worker has stopped"
    );
}

#[test]
fn state_stack_reports_each_unbalanced_command() {
    assert_eq!(check_stack_balance(&[]), Ok(()));
    assert_eq!(check_stack_balance(&[StackCommand::Save, StackCommand::PushClip, StackCommand::Draw, StackCommand::PopClip, StackCommand::Restore]), Ok(()));
    assert_eq!(check_stack_balance(&[StackCommand::Save, StackCommand::PushClip, StackCommand::Restore]), Ok(()));
    assert_eq!(check_stack_balance(&[StackCommand::Restore]), Err(RenderError::UnmatchedRestore));
    assert_eq!(check_stack_balance(&[StackCommand::PopClip]), Err(RenderError::UnmatchedClipPop));
    assert_eq!(check_stack_balance(&[StackCommand::Save, StackCommand::Draw]), Err(RenderError::UnmatchedSave));
    assert_eq!(
        check_stack_balance(&[StackCommand::PushClip, StackCommand::Save, StackCommand::PopClip, StackCommand::Restore, StackCommand::PopClip, StackCommand::PopClip]),
        Err(RenderError::UnmatchedClipPop)
    );
    assert_eq!(check_stack_balance(&[StackCommand::Save, StackCommand::Restore, StackCommand::Restore, StackCommand::PopClip]), Err(RenderError::UnmatchedRestore));
}

#[test]
fn restoring_a_state_brings_back_its_clip_depth() {
    let mut stack = StateStack::new();
    assert_eq!(stack.apply(StackCommand::PushClip), Ok(()));
    assert_eq!(stack.apply(StackCommand::Save), Ok(()));
    assert_eq!(stack.apply(StackCommand::PushClip), Ok(()));
    assert_eq!(stack.apply(StackCommand::PushClip), Ok(()));
    assert_eq!((stack.saved_depth(), stack.clip_depth()), (1, 3));
    assert_eq!(stack.finish(), Err(RenderError::UnmatchedSave));
    assert_eq!(stack.apply(StackCommand::Restore), Ok(()));
    assert_eq!((stack.saved_depth(), stack.clip_depth()), (0, 1));
    assert_eq!(stack.apply(StackCommand::Restore), Err(RenderError::UnmatchedRestore));
    assert_eq!((stack.saved_depth(), stack.clip_depth()), (0, 1));
    assert_eq!(stack.finish(), Ok(()));
}
