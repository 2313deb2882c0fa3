use ort_superserve::error::Error;

#[test]
fn error_messages() {
    assert_eq!(Error::SessionInit("x".to_string()).message(), "Session initialization failed: x");
    assert_eq!(Error::Inference("x".to_string()).message(), "Inference failed: x");
    assert_eq!(Error::Batching("x".to_string()).message(), "Batching failed: x");
    assert_eq!(Error::Preprocessing("x".to_string()).message(), "Preprocessing failed: x");
    assert_eq!(Error::Postprocessing("x".to_string()).message(), "Postprocessing failed: x");
    assert_eq!(Error::ChannelClosed.message(), "Channel closed");
    assert_eq!(Error::ServerShutdown.message(), "Server shutdown");
    assert_eq!(Error::Download("x".to_string()).message(), "Download failed: x");
}

#[test]
fn io_errors_convert_and_keep_their_text() {
    let io = std::io::Error::new(std::io::ErrorKind::NotFound, "no model");
    let e: Error = io.into();
    assert!(matches!(e, Error::Io(_)));
    assert_eq!(e.message(), "IO error: no model");
}
