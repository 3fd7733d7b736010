use pdrive::final_url;
use pdrive::route_for_size;
use pdrive::UploadRoute;
use pdrive::FILE_SPLIT_SIZE;

#[test]
fn ten_mib_routes_single_shot() {
    assert_eq!(route_for_size(10 * 1024 * 1024), UploadRoute::SingleShot);
}

#[test]
fn threshold_exactly_routes_single_shot() {
    assert_eq!(route_for_size(FILE_SPLIT_SIZE as u64), UploadRoute::SingleShot);
}

#[test]
fn just_over_threshold_routes_multipart() {
    assert_eq!(route_for_size(FILE_SPLIT_SIZE as u64 + 1), UploadRoute::Multipart);
}

#[test]
fn hundred_twenty_mib_routes_multipart() {
    assert_eq!(route_for_size(120 * 1024 * 1024), UploadRoute::Multipart);
}

#[test]
fn final_url_joins_base_and_location() {
    let url = final_url("https://api.example.com", "files/name.bin");
    assert_eq!(url, "https://api.example.com/files/name.bin");
}
