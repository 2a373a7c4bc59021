use vstd::prelude::*;

verus! {

#[derive(Debug, Clone, Copy, PartialEq, Eq, Structural)]
pub enum StageType {
    /// Files live under the tenant's own storage root.
    Internal,
    /// Files live in the stage's own external location.
    External,
}

/// The answer to a file upload into a stage.
#[derive(Debug, PartialEq, Eq)]
pub struct UploadToStageResponse {
    pub id: String,
    pub stage_name: String,
    pub state: String,
    pub files: Vec<String>,
}

/// The directory an upload writes to: an internal stage keeps its files under
/// `/stage/<name>/<relative path>/` of the tenant's storage; an external stage is addressed
/// through its own storage, at the relative path itself.
pub open spec fn spec_stage_dir(stage_type: StageType, stage_name: Seq<char>, relative_path: Seq<char>) -> Seq<char> {
    match stage_type {
        StageType::Internal => "/stage/"@ + stage_name + "/"@ + relative_path + "/"@,
        StageType::External => relative_path,
    }
}

pub fn stage_dir(stage_type: StageType, stage_name: &str, relative_path: &str) -> (r: String)
    ensures
        r@ == spec_stage_dir(stage_type, stage_name@, relative_path@),
{
    match stage_type {
        StageType::Internal => {
            let mut d = String::from_str("/stage/");
            d.append(stage_name);
            d.append("/");
            d.append(relative_path);
            d.append("/");
            d
        },
        StageType::External => String::from_str(relative_path),
    }
}

/// The object an uploaded file is written to: the file name inside the stage directory.
pub fn stage_object_path(dir: &str, file_name: &str) -> (r: String)
    ensures
        r@ == dir@ + file_name@,
{
    let mut p = String::from_str(dir);
    p.append(file_name);
    p
}

/// The relative path an upload names, `/` when it names none.
pub fn relative_path_or_root(header: Option<String>) -> (r: String)
    ensures
        header matches Some(h) ==> r@ == h@,
        header is None ==> r@ == "/"@,
{
    match header {
        Some(h) => h,
        None => String::from_str("/"),
    }
}

/// Relies on `uuid::Uuid::new_v4` and the `Display` of `Uuid`: a random id written in the
/// hyphenated form, 36 characters with hyphens at positions 8, 13, 18 and 23 and lowercase
/// hexadecimal digits elsewhere.
#[verifier::external_body]
fn random_uuid() -> (r: String)
    ensures
        r@.len() == 36,
        r@[8] == '-' && r@[13] == '-' && r@[18] == '-' && r@[23] == '-',
        forall|i: int| 0 <= i < 36 && i != 8 && i != 13 && i != 18 && i != 23 ==>
            ('0' <= #[trigger] r@[i] <= '9') || ('a' <= r@[i] <= 'f'),
{
    uuid::Uuid::new_v4().to_string()
}

/// The name an uploaded file is stored under: the name it came with, or else a fresh
/// random id.
pub fn upload_file_name(file_name: Option<String>) -> (r: String)
    ensures
        file_name matches Some(n) ==> r@ == n@,
        file_name is None ==> r@.len() == 36,
{
    match file_name {
        Some(n) => n,
        None => random_uuid(),
    }
}

/// The id of an upload: a fresh random id in the hyphenated form.
pub fn new_upload_id() -> (r: String)
    ensures
        r@.len() == 36,
        r@[8] == '-' && r@[13] == '-' && r@[18] == '-' && r@[23] == '-',
{
    random_uuid()
}

/// A successful upload of `files`.
pub fn upload_succeeded(id: String, stage_name: String, files: Vec<String>) -> (r: UploadToStageResponse)
    ensures
        r.id == id,
        r.stage_name == stage_name,
        r.state@ == "SUCCESS"@,
        r.files == files,
{
    UploadToStageResponse { id, stage_name, state: String::from_str("SUCCESS"), files }
}

} // verus!
