//! Keeping a copy of the database in Google Drive.

use crate::domain::error::DomainError;
use crate::domain::recipe::opt_text;
use crate::infra::json::{all_nodes, get_items, get_text, items_member, json_nodes, text_member};
use crate::infra::json::{json_string, quote_json, JsonNode, JsonStep};
use vstd::prelude::*;
use vstd::utf8::encode_utf8;

verus! {

/// Where files are uploaded.
pub const DRIVE_UPLOAD_URL: &'static str = "https://www.googleapis.com/upload/drive/v3/files";

/// Where files are listed and downloaded.
pub const DRIVE_FILES_URL: &'static str = "https://www.googleapis.com/drive/v3/files";

/// The folder that holds the database.
pub const APP_FOLDER_NAME: &'static str = "stoclove-sync";

/// The name of the database in that folder.
pub const DB_FILENAME: &'static str = "stoclove.sqlite";

/// The type of a folder.
pub const FOLDER_MIME_TYPE: &'static str = "application/vnd.google-apps.folder";

/// The content type of an upload.
pub const UPLOAD_CONTENT_TYPE: &'static str = "multipart/related; boundary=boundary_stoclove";

/// An account in Google Drive.
pub struct DriveSync {
    pub access_token: String,
}

impl DriveSync {
    /// The account that a token gives access to.
    pub fn new(access_token: String) -> (r: Self)
        ensures
            r.access_token@ == access_token@,
    {
        DriveSync { access_token }
    }

    /// How a request shows the token.
    pub fn auth_header(&self) -> (r: String)
        ensures
            r@ == "Bearer "@ + self.access_token@,
    {
        "Bearer ".to_owned().concat(self.access_token.as_str())
    }
}

// ---------------------------------------------------------------------------
// Finding files
// ---------------------------------------------------------------------------

/// The query that finds the folder.
pub open spec fn folder_search() -> Seq<char> {
    "name='"@ + APP_FOLDER_NAME@ + "' and mimeType='"@ + FOLDER_MIME_TYPE@ + "' and trashed=false"@
}

/// The query that finds the folder.
pub fn folder_query() -> (r: String)
    ensures
        r@ == folder_search(),
{
    "name='".to_owned().concat(APP_FOLDER_NAME).concat("' and mimeType='").concat(
        FOLDER_MIME_TYPE,
    ).concat("' and trashed=false")
}

/// The query that finds the database in the folder with the given id.
pub open spec fn file_search(folder_id: Seq<char>) -> Seq<char> {
    "name='"@ + DB_FILENAME@ + "' and '"@ + folder_id + "' in parents and trashed=false"@
}

/// The query that finds the database in the folder with the given id.
pub fn file_query(folder_id: &str) -> (r: String)
    ensures
        r@ == file_search(folder_id@),
{
    "name='".to_owned().concat(DB_FILENAME).concat("' and '").concat(folder_id).concat(
        "' in parents and trashed=false",
    )
}

/// The id of the first file that a reply lists, if it lists one with an id.
pub open spec fn listed_id(resp: Map<Seq<JsonStep>, JsonNode>) -> Option<Seq<char>> {
    match items_member(resp, "files"@) {
        Some(files) => if files.len() > 0 {
            text_member(files[0], "id"@)
        } else {
            None
        },
        None => None,
    }
}

/// The id of the first file that a reply lists: of the folder or of the database, as was asked.
pub fn first_file_id(resp: &serde_json::Value) -> (r: Option<String>)
    ensures
        match r {
            Some(id) => listed_id(json_nodes(*resp)) == Some(id@),
            None => listed_id(json_nodes(*resp)) is None,
        },
{
    match get_items(resp, "files") {
        Some(files) => {
            if files.len() > 0 {
                assert(all_nodes(files@)[0] == json_nodes(files@[0]));
                get_text(&files[0], "id")
            } else {
                None
            }
        },
        None => None,
    }
}

// ---------------------------------------------------------------------------
// Requests
// ---------------------------------------------------------------------------

/// Where an upload goes: to the file that is there, or to the list of files.
pub open spec fn upload_target(existing: Option<Seq<char>>) -> Seq<char> {
    match existing {
        Some(id) => DRIVE_UPLOAD_URL@ + "/"@ + id + "?uploadType=multipart"@,
        None => DRIVE_UPLOAD_URL@ + "?uploadType=multipart"@,
    }
}

/// Where an upload goes: over the file with the given id, or as a new file.
pub fn upload_url(existing: &Option<String>) -> (r: String)
    ensures
        r@ == upload_target(opt_text(*existing)),
{
    match existing {
        Some(id) => DRIVE_UPLOAD_URL.to_owned().concat("/").concat(id.as_str()).concat(
            "?uploadType=multipart",
        ),
        None => DRIVE_UPLOAD_URL.to_owned().concat("?uploadType=multipart"),
    }
}

/// Where a file is downloaded.
pub open spec fn download_source(file_id: Seq<char>) -> Seq<char> {
    DRIVE_FILES_URL@ + "/"@ + file_id + "?alt=media"@
}

/// Where the file with the given id is downloaded.
pub fn download_url(file_id: &str) -> (r: String)
    ensures
        r@ == download_source(file_id@),
{
    DRIVE_FILES_URL.to_owned().concat("/").concat(file_id).concat("?alt=media")
}

/// The metadata of an upload: the name of the database and the folder that it lies in.
pub open spec fn metadata_text(folder_id: Seq<char>) -> Seq<char> {
    "{\"name\":"@ + json_string(DB_FILENAME@) + ",\"parents\":["@ + json_string(folder_id) + "]}"@
}

/// The metadata of an upload into the folder with the given id, as JSON.
pub fn upload_metadata(folder_id: &str) -> (r: String)
    ensures
        r@ == metadata_text(folder_id@),
{
    "{\"name\":".to_owned().concat(quote_json(DB_FILENAME).as_str()).concat(
        ",\"parents\":[",
    ).concat(quote_json(folder_id).as_str()).concat("]}")
}

/// What stands before the metadata of an upload.
pub open spec fn part_one() -> Seq<char> {
    "--boundary_stoclove\r\nContent-Type: application/json; charset=UTF-8\r\n\r\n"@
}

/// What stands between the metadata and the data of an upload.
pub open spec fn part_two() -> Seq<char> {
    "\r\n--boundary_stoclove\r\nContent-Type: application/x-sqlite3\r\n\r\n"@
}

/// What stands behind the data of an upload.
pub open spec fn part_end() -> Seq<char> {
    "\r\n--boundary_stoclove--"@
}

/// The body of an upload: the metadata and the data, each behind its own heading.
pub open spec fn multipart(metadata: Seq<char>, data: Seq<u8>) -> Seq<u8> {
    encode_utf8(part_one()) + encode_utf8(metadata) + encode_utf8(part_two()) + data + encode_utf8(
        part_end(),
    )
}

fn append_bytes(out: &mut Vec<u8>, part: &[u8])
    ensures
        final(out)@ == old(out)@ + part@,
{
    let mut i: usize = 0;
    assert(part@.take(0) =~= Seq::<u8>::empty());
    assert(old(out)@ + part@.take(0) =~= old(out)@);
    while i < part.len()
        invariant
            i <= part@.len(),
            out@ == old(out)@ + part@.take(i as int),
        decreases part@.len() - i,
    {
        out.push(part[i]);
        i += 1;
        assert(part@.take(i as int) =~= part@.take(i - 1).push(part@[i - 1]));
        assert(out@ =~= old(out)@ + part@.take(i as int));
    }
    assert(part@.take(part@.len() as int) =~= part@);
}

/// The body of an upload.
pub fn build_multipart(metadata: &str, data: &[u8]) -> (r: Vec<u8>)
    ensures
        r@ == multipart(metadata@, data@),
{
    let mut body: Vec<u8> = Vec::new();
    append_bytes(
        &mut body,
        "--boundary_stoclove\r\nContent-Type: application/json; charset=UTF-8\r\n\r\n".as_bytes(),
    );
    append_bytes(&mut body, metadata.as_bytes());
    append_bytes(
        &mut body,
        "\r\n--boundary_stoclove\r\nContent-Type: application/x-sqlite3\r\n\r\n".as_bytes(),
    );
    append_bytes(&mut body, data);
    append_bytes(&mut body, "\r\n--boundary_stoclove--".as_bytes());
    assert(body@ =~= multipart(metadata@, data@));
    body
}

/// The data can be cut out of the body of an upload as it was put in.
pub proof fn law_upload_holds_the_data(metadata: Seq<char>, data: Seq<u8>)
    ensures
        ({
            let start = encode_utf8(part_one()).len() + encode_utf8(metadata).len() + encode_utf8(
                part_two(),
            ).len();
            multipart(metadata, data).subrange(start as int, (start + data.len()) as int) == data
        }),
{
    let start = encode_utf8(part_one()).len() + encode_utf8(metadata).len() + encode_utf8(
        part_two(),
    ).len();
    assert(multipart(metadata, data).subrange(start as int, (start + data.len()) as int) =~= data);
}

// ---------------------------------------------------------------------------
// The order of a transfer
// ---------------------------------------------------------------------------

/// What is done with the database in Google Drive.
#[derive(Debug, Clone, Copy, PartialEq, Eq, Structural)]
pub enum DriveTask {
    Upload,
    Download,
}

/// How far a transfer is.
#[derive(Debug, Clone, Copy, PartialEq, Eq, Structural)]
pub enum DriveStage {
    /// The folder is looked for.
    FindFolder,
    /// The folder is not there and is made.
    MakeFolder,
    /// The database is looked for in the folder.
    FindFile,
    /// The database is sent or fetched.
    Transfer,
}

/// A transfer to or from Google Drive.
#[derive(Debug)]
pub struct DriveSession {
    pub task: DriveTask,
    pub stage: DriveStage,
    pub folder_id: String,
    pub file_id: Option<String>,
}

/// A transfer as plain values.
pub struct DriveSessionView {
    pub task: DriveTask,
    pub stage: DriveStage,
    pub folder_id: Seq<char>,
    pub file_id: Option<Seq<char>>,
}

impl View for DriveSession {
    type V = DriveSessionView;

    open spec fn view(&self) -> DriveSessionView {
        DriveSessionView {
            task: self.task,
            stage: self.stage,
            folder_id: self.folder_id@,
            file_id: opt_text(self.file_id),
        }
    }
}

/// What is asked of Google Drive next.
#[derive(Debug)]
pub enum DriveRequest {
    /// List the files that `query` finds, with the given fields of each.
    List { query: String, fields: &'static str },
    /// Make the folder.
    CreateFolder,
    /// Send the database over the file that is there.
    Update { url: String },
    /// Send the database as a new file.
    Create { url: String },
    /// Fetch the database.
    Fetch { url: String },
}

/// A request as plain values.
pub enum DriveRequestView {
    List { query: Seq<char>, fields: Seq<char> },
    CreateFolder,
    Update { url: Seq<char> },
    Create { url: Seq<char> },
    Fetch { url: Seq<char> },
}

impl View for DriveRequest {
    type V = DriveRequestView;

    open spec fn view(&self) -> DriveRequestView {
        match self {
            DriveRequest::List { query, fields } => DriveRequestView::List {
                query: query@,
                fields: fields@,
            },
            DriveRequest::CreateFolder => DriveRequestView::CreateFolder,
            DriveRequest::Update { url } => DriveRequestView::Update { url: url@ },
            DriveRequest::Create { url } => DriveRequestView::Create { url: url@ },
            DriveRequest::Fetch { url } => DriveRequestView::Fetch { url: url@ },
        }
    }
}

/// The detail of the error of a folder that was made but has no id.
pub open spec fn no_folder_id() -> Seq<char> {
    "No id in folder create response"@
}

/// The detail of the error of a database that is to be fetched but is not there.
pub open spec fn no_remote_file() -> Seq<char> {
    "No remote DB file found in Drive"@
}

impl DriveSessionView {
    /// What is fetched is there.
    pub open spec fn wf(self) -> bool {
        self.stage == DriveStage::Transfer && self.task == DriveTask::Download ==> self.file_id
            is Some
    }

    /// What is asked of Google Drive next.
    pub open spec fn asks(self) -> DriveRequestView {
        match self.stage {
            DriveStage::FindFolder => DriveRequestView::List {
                query: folder_search(),
                fields: "files(id,name)"@,
            },
            DriveStage::MakeFolder => DriveRequestView::CreateFolder,
            DriveStage::FindFile => DriveRequestView::List {
                query: file_search(self.folder_id),
                fields: "files(id)"@,
            },
            DriveStage::Transfer => match (self.task, self.file_id) {
                (DriveTask::Upload, Some(_)) => DriveRequestView::Update {
                    url: upload_target(self.file_id),
                },
                (DriveTask::Upload, None) => DriveRequestView::Create { url: upload_target(None) },
                (DriveTask::Download, Some(id)) => DriveRequestView::Fetch {
                    url: download_source(id),
                },
                (DriveTask::Download, None) => DriveRequestView::Fetch {
                    url: download_source(Seq::empty()),
                },
            },
        }
    }

    /// The transfer once the folder is known.
    pub open spec fn in_folder(self, id: Seq<char>) -> DriveSessionView {
        DriveSessionView { stage: DriveStage::FindFile, folder_id: id, ..self }
    }

    /// The transfer once it is told the id of the first file that the reply lists and the id of
    /// what was made; or what is missing in the reply.
    pub open spec fn told(self, listed: Option<Seq<char>>, made: Option<Seq<char>>) -> Result<
        DriveSessionView,
        Seq<char>,
    > {
        match self.stage {
            DriveStage::FindFolder => match listed {
                Some(id) => Ok(self.in_folder(id)),
                None => Ok(DriveSessionView { stage: DriveStage::MakeFolder, ..self }),
            },
            DriveStage::MakeFolder => match made {
                Some(id) => Ok(self.in_folder(id)),
                None => Err(no_folder_id()),
            },
            DriveStage::FindFile => if self.task == DriveTask::Download && listed is None {
                Err(no_remote_file())
            } else {
                Ok(DriveSessionView { stage: DriveStage::Transfer, file_id: listed, ..self })
            },
            DriveStage::Transfer => Ok(self),
        }
    }

    /// The transfer once the reply to what was asked came; or what is missing in the reply.
    pub open spec fn replied(self, resp: Map<Seq<JsonStep>, JsonNode>) -> Result<
        DriveSessionView,
        Seq<char>,
    > {
        self.told(listed_id(resp), text_member(resp, "id"@))
    }
}

impl DriveSession {
    /// A transfer that begins.
    pub fn begin(task: DriveTask) -> (r: Self)
        ensures
            r@ == (DriveSessionView {
                task,
                stage: DriveStage::FindFolder,
                folder_id: Seq::empty(),
                file_id: None,
            }),
            r@.wf(),
    {
        DriveSession {
            task,
            stage: DriveStage::FindFolder,
            folder_id: String::new(),
            file_id: None,
        }
    }

    /// What is asked of Google Drive next.
    pub fn request(&self) -> (r: DriveRequest)
        requires
            self@.wf(),
        ensures
            r@ == self@.asks(),
    {
        match self.stage {
            DriveStage::FindFolder => DriveRequest::List {
                query: folder_query(),
                fields: "files(id,name)",
            },
            DriveStage::MakeFolder => DriveRequest::CreateFolder,
            DriveStage::FindFile => DriveRequest::List {
                query: file_query(self.folder_id.as_str()),
                fields: "files(id)",
            },
            DriveStage::Transfer => match self.task {
                DriveTask::Upload => {
                    let url = upload_url(&self.file_id);
                    if self.file_id.is_some() {
                        DriveRequest::Update { url }
                    } else {
                        DriveRequest::Create { url }
                    }
                },
                DriveTask::Download => match &self.file_id {
                    Some(id) => DriveRequest::Fetch { url: download_url(id.as_str()) },
                    None => DriveRequest::Fetch { url: download_url("") },
                },
            },
        }
    }

    /// Takes in the id of the first file that a reply lists and the id of what was made. A folder
    /// without an id is an error, and so is a database that is to be fetched but is not there; the
    /// transfer then stays where it was.
    pub fn tell(&mut self, listed: Option<String>, made: Option<String>) -> (r: Result<
        (),
        DomainError,
    >)
        requires
            old(self)@.wf(),
        ensures
            final(self)@.wf(),
            match old(self)@.told(opt_text(listed), opt_text(made)) {
                Ok(next) => r is Ok && final(self)@ == next,
                Err(detail) => r is Err && r->Err_0 is SyncError && r->Err_0.detail() == detail
                    && final(self)@ == old(self)@,
            },
    {
        match self.stage {
            DriveStage::FindFolder => {
                match listed {
                    Some(id) => {
                        self.folder_id = id;
                        self.stage = DriveStage::FindFile;
                    },
                    None => {
                        self.stage = DriveStage::MakeFolder;
                    },
                }
            },
            DriveStage::MakeFolder => {
                match made {
                    Some(id) => {
                        self.folder_id = id;
                        self.stage = DriveStage::FindFile;
                    },
                    None => {
                        return Err(
                            DomainError::SyncError("No id in folder create response".to_owned()),
                        );
                    },
                }
            },
            DriveStage::FindFile => {
                if self.task == DriveTask::Download && listed.is_none() {
                    return Err(
                        DomainError::SyncError("No remote DB file found in Drive".to_owned()),
                    );
                }
                self.file_id = listed;
                self.stage = DriveStage::Transfer;
            },
            DriveStage::Transfer => {},
        }
        Ok(())
    }

    /// Takes in the reply to what was asked.
    pub fn reply(&mut self, resp: &serde_json::Value) -> (r: Result<(), DomainError>)
        requires
            old(self)@.wf(),
        ensures
            final(self)@.wf(),
            match old(self)@.replied(json_nodes(*resp)) {
                Ok(next) => r is Ok && final(self)@ == next,
                Err(detail) => r is Err && r->Err_0 is SyncError && r->Err_0.detail() == detail
                    && final(self)@ == old(self)@,
            },
    {
        self.tell(first_file_id(resp), get_text(resp, "id"))
    }
}

/// A transfer gets to the database after at most three replies that are in order; the folder is
/// made at most once, and only if it was not found.
pub proof fn law_transfer_comes_to_the_database(
    task: DriveTask,
    first: Map<Seq<JsonStep>, JsonNode>,
    second: Map<Seq<JsonStep>, JsonNode>,
    third: Map<Seq<JsonStep>, JsonNode>,
)
    ensures
        ({
            let start = DriveSessionView {
                task,
                stage: DriveStage::FindFolder,
                folder_id: Seq::empty(),
                file_id: None,
            };
            let looked = start.replied(first)->Ok_0;
            &&& start.replied(first) is Ok
            &&& looked.asks() is CreateFolder <==> listed_id(first) is None
            &&& looked.replied(second) matches Ok(next) ==> next.asks() !is CreateFolder && (
            next.replied(third) matches Ok(last) ==> last.stage == DriveStage::Transfer)
        }),
{
}

// ---------------------------------------------------------------------------
// The order of a synchronisation
// ---------------------------------------------------------------------------

/// A step of a synchronisation.
#[derive(Debug, Clone, Copy, PartialEq, Eq, Structural)]
pub enum SyncStep {
    /// Download the remote database.
    Download,
    /// Merge the downloaded database into the local one.
    Merge,
    /// Remove the downloaded database.
    RemoveDownload,
    /// Write a copy of the local database.
    Export,
    /// Upload the copy.
    Upload,
    /// Remove the copy.
    RemoveExport,
    /// All is done.
    Done,
    /// A step went wrong that the rest depends on.
    Failed,
}

impl SyncStep {
    /// The step behind this one, which went well or not. Without a remote database there is
    /// nothing to merge, and a file that cannot be removed stays.
    pub open spec fn next(self, ok: bool) -> SyncStep {
        match self {
            SyncStep::Download => if ok {
                SyncStep::Merge
            } else {
                SyncStep::Export
            },
            SyncStep::Merge => if ok {
                SyncStep::RemoveDownload
            } else {
                SyncStep::Failed
            },
            SyncStep::RemoveDownload => SyncStep::Export,
            SyncStep::Export => if ok {
                SyncStep::Upload
            } else {
                SyncStep::Failed
            },
            SyncStep::Upload => if ok {
                SyncStep::RemoveExport
            } else {
                SyncStep::Failed
            },
            SyncStep::RemoveExport => SyncStep::Done,
            SyncStep::Done => SyncStep::Done,
            SyncStep::Failed => SyncStep::Failed,
        }
    }

    /// The step behind this one, which went well or not.
    pub fn after(self, ok: bool) -> (r: SyncStep)
        ensures
            r == self.next(ok),
    {
        match self {
            SyncStep::Download => if ok {
                SyncStep::Merge
            } else {
                SyncStep::Export
            },
            SyncStep::Merge => if ok {
                SyncStep::RemoveDownload
            } else {
                SyncStep::Failed
            },
            SyncStep::RemoveDownload => SyncStep::Export,
            SyncStep::Export => if ok {
                SyncStep::Upload
            } else {
                SyncStep::Failed
            },
            SyncStep::Upload => if ok {
                SyncStep::RemoveExport
            } else {
                SyncStep::Failed
            },
            SyncStep::RemoveExport => SyncStep::Done,
            SyncStep::Done => SyncStep::Done,
            SyncStep::Failed => SyncStep::Failed,
        }
    }
}

/// Where the remote database is downloaded to.
pub fn remote_path(local_db_path: &str) -> (r: String)
    ensures
        r@ == local_db_path@ + ".remote.sqlite"@,
{
    local_db_path.to_owned().concat(".remote.sqlite")
}

/// Where the copy of the local database is written to.
pub fn export_path(local_db_path: &str) -> (r: String)
    ensures
        r@ == local_db_path@ + ".export.sqlite"@,
{
    local_db_path.to_owned().concat(".export.sqlite")
}

/// The step that a synchronisation is at, once the steps so far went as `oks` says.
pub open spec fn reached(oks: Seq<bool>) -> SyncStep
    decreases oks.len(),
{
    if oks.len() == 0 {
        SyncStep::Download
    } else {
        reached(oks.drop_last()).next(oks.last())
    }
}

/// Nothing is uploaded that was not exported just before, and nothing is exported before what was
/// downloaded is merged.
pub proof fn law_upload_follows_export(oks: Seq<bool>)
    requires
        oks.len() > 0,
    ensures
        reached(oks) == SyncStep::Upload ==> reached(oks.drop_last()) == SyncStep::Export
            && oks.last(),
        reached(oks) == SyncStep::Export ==> reached(oks.drop_last()) == SyncStep::RemoveDownload
            || (reached(oks.drop_last()) == SyncStep::Download && !oks.last()),
        reached(oks) == SyncStep::RemoveDownload ==> reached(oks.drop_last()) == SyncStep::Merge
            && oks.last(),
{
}

/// A synchronisation ends after at most six steps, whatever happens.
pub proof fn law_synchronisation_ends(oks: Seq<bool>)
    requires
        oks.len() >= 6,
    ensures
        reached(oks) == SyncStep::Done || reached(oks) == SyncStep::Failed,
{
    lemma_remaining(oks);
}

/// How many steps are at most to come.
pub open spec fn remaining(step: SyncStep) -> nat {
    match step {
        SyncStep::Download => 6,
        SyncStep::Merge => 5,
        SyncStep::RemoveDownload => 4,
        SyncStep::Export => 3,
        SyncStep::Upload => 2,
        SyncStep::RemoveExport => 1,
        SyncStep::Done => 0,
        SyncStep::Failed => 0,
    }
}

proof fn lemma_remaining(oks: Seq<bool>)
    ensures
        remaining(reached(oks)) == 0 || remaining(reached(oks)) + oks.len() <= 6,
    decreases oks.len(),
{
    if oks.len() > 0 {
        lemma_remaining(oks.drop_last());
    }
}

/// The ids of the folder and of the file stand in the requests as they are.
pub proof fn law_ids_stand_as_they_are(id: Seq<char>)
    ensures
        file_search(id) == "name='"@ + DB_FILENAME@ + "' and '"@ + id
            + "' in parents and trashed=false"@,
        upload_target(Some(id)) == DRIVE_UPLOAD_URL@ + "/"@ + id + "?uploadType=multipart"@,
        upload_target(None) == DRIVE_UPLOAD_URL@ + "?uploadType=multipart"@,
        download_source(id) == DRIVE_FILES_URL@ + "/"@ + id + "?alt=media"@,
        metadata_text(id) == "{\"name\":"@ + json_string(DB_FILENAME@) + ",\"parents\":["@
            + json_string(id) + "]}"@,
{
}

/// Metadata and data stand in the body of an upload as they are, between the same texts whatever
/// they hold.
pub proof fn law_uploads_differ_only_by_what_they_hold(
    metadata: Seq<char>,
    data: Seq<u8>,
    other: Seq<u8>,
)
    ensures
        multipart(metadata, data) == encode_utf8(part_one()) + encode_utf8(metadata) + encode_utf8(
            part_two(),
        ) + data + encode_utf8(part_end()),
        data.len() == other.len() && multipart(metadata, data) == multipart(metadata, other) ==> data
            == other,
{
    let n = encode_utf8(part_one()).len() + encode_utf8(metadata).len() + encode_utf8(
        part_two(),
    ).len();
    if data.len() == other.len() && multipart(metadata, data) == multipart(metadata, other) {
        law_upload_holds_the_data(metadata, data);
        law_upload_holds_the_data(metadata, other);
    }
}

/// The first file of a list counts if it has an id, and no other file does.
pub proof fn law_the_first_listed_file_counts(resp: Map<Seq<JsonStep>, JsonNode>)
    ensures
        listed_id(resp) matches Some(id) ==> items_member(resp, "files"@) is Some && items_member(
            resp,
            "files"@,
        )->0.len() > 0 && text_member(items_member(resp, "files"@)->0[0], "id"@) == Some(id),
        items_member(resp, "files"@) matches Some(files) ==> files.len() > 0 ==> listed_id(resp)
            == text_member(files[0], "id"@),
        items_member(resp, "files"@) is None ==> listed_id(resp) is None,
        items_member(resp, "files"@) matches Some(files) ==> files.len() == 0 ==> listed_id(resp)
            is None,
{
}

/// What a transfer learns it keeps, and it learns each thing from the reply that was asked for it:
/// the folder from the first list or from making it, and the file from the second list.
pub proof fn law_a_transfer_keeps_what_it_learns(
    s: DriveSessionView,
    listed: Option<Seq<char>>,
    made: Option<Seq<char>>,
)
    ensures
        s.told(listed, made) matches Ok(next) ==> {
            &&& next.task == s.task
            &&& s.stage == DriveStage::FindFolder && listed is Some ==> next.stage
                == DriveStage::FindFile && next.folder_id == listed->0 && next.file_id == s.file_id
            &&& s.stage == DriveStage::FindFolder && listed is None ==> next.stage
                == DriveStage::MakeFolder && next.folder_id == s.folder_id && next.file_id
                == s.file_id
            &&& s.stage == DriveStage::MakeFolder ==> next.stage == DriveStage::FindFile
                && Some(next.folder_id) == made && next.file_id == s.file_id
            &&& s.stage == DriveStage::FindFile ==> next.stage == DriveStage::Transfer
                && next.folder_id == s.folder_id && next.file_id == listed
            &&& s.stage == DriveStage::Transfer ==> next == s
        },
        s.told(listed, made) is Err <==> (s.stage == DriveStage::MakeFolder && made is None) || (
        s.stage == DriveStage::FindFile && s.task == DriveTask::Download && listed is None),
        s.told(listed, made) is Err ==> s.told(listed, made)->Err_0 == if s.stage
            == DriveStage::MakeFolder {
            "No id in folder create response"@
        } else {
            "No remote DB file found in Drive"@
        },
{
}

/// A transfer asks for what it does not know yet, and then for the database itself: over the file
/// that is there, as a new file, or from the file.
pub proof fn law_a_transfer_asks_for_what_is_missing(s: DriveSessionView)
    ensures
        s.stage == DriveStage::FindFolder ==> s.asks() == (DriveRequestView::List {
            query: "name='"@ + APP_FOLDER_NAME@ + "' and mimeType='"@ + FOLDER_MIME_TYPE@
                + "' and trashed=false"@,
            fields: "files(id,name)"@,
        }),
        s.stage == DriveStage::MakeFolder ==> s.asks() is CreateFolder,
        s.stage == DriveStage::FindFile ==> s.asks() == (DriveRequestView::List {
            query: file_search(s.folder_id),
            fields: "files(id)"@,
        }),
        s.stage == DriveStage::Transfer && s.task == DriveTask::Upload && s.file_id is Some
            ==> s.asks() == (DriveRequestView::Update { url: upload_target(s.file_id) }),
        s.stage == DriveStage::Transfer && s.task == DriveTask::Upload && s.file_id is None
            ==> s.asks() == (DriveRequestView::Create { url: upload_target(None) }),
        s.stage == DriveStage::Transfer && s.task == DriveTask::Download && s.file_id is Some
            ==> s.asks() == (DriveRequestView::Fetch { url: download_source(s.file_id->0) }),
{
}

/// A synchronisation that meets no failure goes through all steps; one without a remote database
/// goes without a merge; and one stops where a merge, an export or an upload fails.
pub proof fn law_how_a_synchronisation_goes(removed: bool, ok: bool)
    ensures
        reached(seq![true]) == SyncStep::Merge,
        reached(seq![true, true]) == SyncStep::RemoveDownload,
        reached(seq![true, true, removed]) == SyncStep::Export,
        reached(seq![false]) == SyncStep::Export,
        SyncStep::Export.next(true) == SyncStep::Upload,
        SyncStep::Upload.next(true) == SyncStep::RemoveExport,
        SyncStep::RemoveExport.next(removed) == SyncStep::Done,
        SyncStep::Merge.next(false) == SyncStep::Failed,
        SyncStep::Export.next(false) == SyncStep::Failed,
        SyncStep::Upload.next(false) == SyncStep::Failed,
        SyncStep::Failed.next(ok) == SyncStep::Failed,
        SyncStep::Done.next(ok) == SyncStep::Done,
{
    assert(reached(Seq::empty()) == SyncStep::Download);
    assert(seq![true].drop_last() =~= Seq::<bool>::empty());
    assert(seq![false].drop_last() =~= Seq::<bool>::empty());
    assert(seq![true, true].drop_last() =~= seq![true]);
    assert(seq![true, true, removed].drop_last() =~= seq![true, true]);
}

/// A transfer is seen whole.
pub proof fn law_a_transfer_is_seen_whole(s: DriveSession)
    ensures
        s@.task == s.task && s@.stage == s.stage && s@.folder_id == s.folder_id@,
        s@.file_id is Some <==> s.file_id is Some,
        s.file_id matches Some(id) ==> s@.file_id == Some(id@),
{
}

} // verus!
