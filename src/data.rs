use vstd::prelude::*;

verus! {

/// Body of a request that creates a user.
#[derive(Debug)]
pub struct CreateUserRequest {
    pub email: String,
}

/// Answer to a request that creates a user.
#[derive(Debug)]
pub struct CreateUserResponse {
    pub user_id: i32,
}

/// Body of a request that adds a memory to be reminded of.
#[derive(Debug)]
pub struct CreateMemoryRequest {
    pub user_id: i32,
    pub topic: Option<String>,
    pub text: String,
}

/// Answer to a request that adds a memory.
#[derive(Debug)]
pub struct CreateMemoryResponse {
    pub memory_id: i32,
}

} // verus!
