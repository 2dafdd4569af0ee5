//! Format parameters.

use luma_core::sdp::Fmtp;



#[test]
fn the_parameters_are_found_whatever_their_case_and_spacing() {
    let f = Fmtp::parse("mode=AAC-hbr;SizeLength = 13 ; indexlength=3");
    assert_eq!(f.get("mode"), Some("AAC-hbr"));
    assert_eq!(f.get("MODE"), Some("AAC-hbr"));
    assert_eq!(f.size_length(), Some(13));
    assert_eq!(f.index_length(), Some(3));
    assert_eq!(f.index_delta_length(), None);
    assert_eq!(f.get("config"), None);
}
