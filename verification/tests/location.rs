use cpsl::location::{
    call_gateway, gateway_reply, location_request, validate_no_args, LocationCommand, LocationGateway,
};

struct Echo;

impl LocationGateway for Echo {
    fn handle_json(&self, request_json: &str) -> Result<String, String> {
        if request_json.contains("current") {
            Err("location unavailable".to_string())
        } else if request_json.contains("request_access") {
            Ok("{\"ok\":false,\"error\":\"denied\"}".to_string())
        } else {
            Ok(format!("{{\"ok\":true,\"echo\":{}}}", request_json))
        }
    }
}

#[test]
fn requests_name_their_command() {
    assert_eq!(location_request(LocationCommand::Status), "{\"command\":\"status\"}");
    assert_eq!(location_request(LocationCommand::RequestAccess), "{\"command\":\"request_access\"}");
    assert_eq!(location_request(LocationCommand::Current), "{\"command\":\"current\"}");
}

#[test]
fn location_functions_take_no_arguments() {
    assert!(validate_no_args(0, "location.status").is_ok());
    match validate_no_args(2, "location.current") {
        Err(e) => assert_eq!(e, "location.current: expected no arguments, got 2"),
        Ok(_) => panic!("arguments accepted"),
    }
}

#[test]
fn gateway_gets_the_request_text() {
    let doc = call_gateway(&Echo, LocationCommand::Status).ok().unwrap();
    assert_eq!(doc.text(), "{\"ok\":true,\"echo\":{\"command\":\"status\"}}");
    assert_eq!(call_gateway(&Echo, LocationCommand::RequestAccess).err(), Some("denied".to_string()));
    assert_eq!(call_gateway(&Echo, LocationCommand::Current).err(), Some("location unavailable".to_string()));
}

#[test]
fn replies_without_success_fail() {
    assert_eq!(gateway_reply("{\"ok\":\"yes\"}").err(), Some("location command failed".to_string()));
    assert_eq!(gateway_reply("{}").err(), Some("location command failed".to_string()));
    assert!(gateway_reply("not json").is_err());
    assert!(gateway_reply("{\"ok\":true,\"lat\":1.5}").is_ok());
}
