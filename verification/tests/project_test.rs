use daw::nodes::{SmartEq, StemSeparator, StemSeparatorConfig};
use daw::project::{buffer_size_is_valid, sample_rate_is_valid};

#[test]
fn project_sample_rate_rule() {
    assert!(sample_rate_is_valid(8000));
    assert!(sample_rate_is_valid(44100));
    assert!(sample_rate_is_valid(192000));
    assert!(!sample_rate_is_valid(7999));
    assert!(!sample_rate_is_valid(192001));
}

#[test]
fn project_buffer_size_rule() {
    for ok in [64usize, 128, 256, 512, 1024, 2048, 4096, 8192, 16384] {
        assert!(buffer_size_is_valid(ok), "{} should be accepted", ok);
    }
    for bad in [0usize, 1, 32, 63, 65, 96, 500, 513, 16383, 16385, 32768] {
        assert!(!buffer_size_is_valid(bad), "{} should be refused", bad);
    }
}

#[test]
fn analysers_keep_their_configuration() {
    assert_eq!(SmartEq::new(), SmartEq);
    let sep = StemSeparator::new(StemSeparatorConfig { sample_rate: 48000 });
    assert_eq!(sep.config.sample_rate, 48000);
}
