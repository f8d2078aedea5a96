use inference_bridge::image_job::{
    generated_image_caption, restore_failure_message, restored_chat_message, step_message,
};

#[test]
fn progress_and_restore_messages() {
    assert_eq!(step_message(11, 50), "Generating image - step 11 of 50");
    assert_eq!(restored_chat_message("completed"), "Image ready — chat model restored");
    assert_eq!(restored_chat_message("cancelled"), "Image cancelled — chat model restored");
    assert_eq!(restored_chat_message("failed"), "Image failed — chat model restored");
    assert_eq!(
        restore_failure_message(None, "port busy"),
        "The image job finished. Chat model restoration failed: port busy"
    );
    assert_eq!(
        restore_failure_message(Some("Runner crashed."), "x"),
        "Runner crashed. Chat model restoration failed: x"
    );
}

#[test]
fn generated_image_caption_spells_out_settings() {
    assert_eq!(generated_image_caption(1024, 768, 50, 42), "Generated image — 1024×768, 50 steps, seed 42");
    assert_eq!(generated_image_caption(64, 64, 1, -7), "Generated image — 64×64, 1 steps, seed -7");
}
