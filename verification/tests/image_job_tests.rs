use inference_bridge::image_job::{
    check_image_size, native_runner_end, output_check_end, png_dimensions, RunnerEnd, RunnerOutcome,
};

fn finished(status: &str, message: &str, error: Option<&str>, remove: bool) -> RunnerEnd {
    RunnerEnd::Finished {
        status: status.to_string(),
        message: message.to_string(),
        error: error.map(|e| e.to_string()),
        remove_output: remove,
    }
}

#[test]
fn png_dimensions_reject_non_png_data() {
    let mut header = b"not a PNG".to_vec();
    header.resize(24, 0);
    assert!(png_dimensions(&header).is_err());
}

#[test]
fn png_dimensions_read_the_image_header() {
    let mut header = vec![0x89u8, b'P', b'N', b'G', b'\r', b'\n', 0x1a, b'\n', 0, 0, 0, 13, b'I', b'H', b'D', b'R'];
    header.extend_from_slice(&1024u32.to_be_bytes());
    header.extend_from_slice(&768u32.to_be_bytes());
    assert_eq!(png_dimensions(&header), Ok((1024, 768)));
    assert_eq!(check_image_size(1024, 768, 1024, 768), Ok(()));
    assert_eq!(
        check_image_size(1024, 768, 512, 512),
        Err("Generated image dimensions were 1024x768; expected 512x512".to_string())
    );
}

#[test]
fn runner_fates() {
    assert_eq!(
        native_runner_end(RunnerOutcome::SpawnFailed("no such file".to_string()), 60, "", ""),
        finished("failed", "Failed to start image runner: no such file", Some("Failed to start image runner: no such file"), false)
    );
    assert_eq!(
        native_runner_end(RunnerOutcome::Cancelled, 60, "", ""),
        finished("cancelled", "Image generation cancelled", None, true)
    );
    assert_eq!(
        native_runner_end(RunnerOutcome::TimedOut, 600, "", ""),
        finished("failed", "Image generation timed out after 600 seconds", Some("Image generation timed out after 600 seconds"), true)
    );
    assert_eq!(
        native_runner_end(
            RunnerOutcome::Exited { success: false, status: "exit status: 3".to_string() },
            60,
            "loading\nout of memory\n\n",
            "",
        ),
        finished(
            "failed",
            "Image runner exited with exit status: 3: out of memory",
            Some("Image runner exited with exit status: 3: out of memory"),
            true
        )
    );
    assert_eq!(
        native_runner_end(RunnerOutcome::Exited { success: false, status: "exit status: 1".to_string() }, 60, "", ""),
        finished("failed", "Image runner exited with exit status: 1", Some("Image runner exited with exit status: 1"), true)
    );
    assert_eq!(
        native_runner_end(RunnerOutcome::Exited { success: true, status: "exit status: 0".to_string() }, 60, "", ""),
        RunnerEnd::CheckOutput
    );
    assert_eq!(output_check_end(Ok(())), finished("completed", "Image ready", None, false));
    assert_eq!(output_check_end(Err("bad".to_string())), finished("failed", "bad", Some("bad"), true));
}
