use vstd::prelude::*;

verus! {

/// The answer to a request to create a user's home directory.
pub struct Result {
    pub result: bool,
    pub body: String,
}

/// What creating the home directory itself gave: success, or the OS error
/// code of the failure when there is one.
#[derive(Clone, Copy, PartialEq, Eq, Structural, Debug)]
pub enum HomeOutcome {
    Created,
    Failed(Option<i32>),
}

/// The OS error code for a directory that already exists.
pub const ALREADY_EXISTS: i32 = 17;

/// The answer for an attempt to create a home directory.
pub fn create_home(outcome: HomeOutcome) -> (r: Result)
    ensures
        r.result == (outcome is Created),
        outcome is Created ==> r.body@ == "Your request has been accepted"@,
        outcome == HomeOutcome::Failed(Some(ALREADY_EXISTS)) ==> r.body@ == "User Already Exist"@,
        (outcome is Failed && outcome != HomeOutcome::Failed(Some(ALREADY_EXISTS))) ==> r.body@
            == "Unknow Error"@,
{
    match outcome {
        HomeOutcome::Created => Result {
            result: true,
            body: "Your request has been accepted".to_owned(),
        },
        HomeOutcome::Failed(code) => {
            let exists = match code {
                Some(c) => c == ALREADY_EXISTS,
                None => false,
            };
            if exists {
                Result { result: false, body: "User Already Exist".to_owned() }
            } else {
                Result { result: false, body: "Unknow Error".to_owned() }
            }
        },
    }
}

/// The folders created inside every new home directory.
pub fn home_subfolders() -> (r: Vec<&'static str>)
    ensures
        r@.len() == 4,
        r@[0]@ == "photo"@,
        r@[1]@ == "video"@,
        r@[2]@ == "music"@,
        r@[3]@ == "document"@,
{
    vec!["photo", "video", "music", "document"]
}

/// `./home/<name>`: the home directory of the user `name`.
pub fn home_path(name: &str) -> (r: String)
    ensures
        r@ == "./home/"@ + name@,
{
    let mut s = "./home/".to_owned();
    s.push_str(name);
    s
}

} // verus!
