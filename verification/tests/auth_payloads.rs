use peerchat::auth::{
    ApiError, AuthServices, JwtUserSubject, SigninRequestDto, SigninResponseDto,
    SignupRequestDto, TypeResponse,
};

#[test]
fn send_builds_the_success_envelope() {
    let r: TypeResponse<()> = TypeResponse::send(200, Some(()), "Signup Successful");
    assert_eq!(r.code, 200);
    assert!(r.success);
    assert_eq!(r.message, "Signup Successful".to_string());
    assert_eq!(r.data, Some(()));
    let empty: TypeResponse<i32> = TypeResponse::send(200, None, "ok");
    assert_eq!(empty.data, None);
}

#[test]
fn api_errors_carry_their_message() {
    let e = ApiError::BadRequest("Invalid email or password".to_string());
    assert_eq!(e.message().as_str(), "Invalid email or password");
    let c = ApiError::Conflict("This email is already in use".to_string());
    assert_eq!(c.message().as_str(), "This email is already in use");
}

#[test]
fn api_error_status_codes() {
    assert_eq!(ApiError::BadRequest(String::new()).status_code(), 400);
    assert_eq!(ApiError::Conflict(String::new()).status_code(), 409);
    assert_eq!(ApiError::Notfound(String::new()).status_code(), 400);
    assert_eq!(ApiError::InternalServerError(String::new()).status_code(), 400);
}

#[test]
fn payload_types_hold_their_fields() {
    let signup = SignupRequestDto {
        username: "ada".to_string(),
        email: "ada@example.com".to_string(),
        password: "pw-1234".to_string(),
    };
    assert_eq!(signup.username, "ada");
    let signin = SigninRequestDto {
        email: signup.email.clone(),
        password: signup.password.clone(),
    };
    assert_eq!(signin.email, "ada@example.com");
    let subject = JwtUserSubject {
        id: 7,
        username: signup.username.clone(),
        email: signup.email.clone(),
    };
    let response = SigninResponseDto {
        id: subject.id,
        username: subject.username.clone(),
        email: subject.email.clone(),
        token: "token".to_string(),
    };
    assert_eq!(response.id, 7);
    assert_eq!(response.username, "ada");
    let _marker: AuthServices = AuthServices;
}
