//! The shell command lines the API endpoints run, as bytes.

use vstd::prelude::*;
use vstd::string::StringSliceAdditionalSpecFns;
use crate::bytes::append_bytes;
use crate::reply::text_bytes;

verus! {

/// The commands of the file scan endpoint for the upload saved as `id`.
pub struct ScanCommands {
    /// `clamscan <id>`
    pub scan: Vec<u8>,
    /// `sha256sum -b <id>`
    pub checksum: Vec<u8>,
    /// `rm <id>`
    pub cleanup: Vec<u8>,
}

/// The commands of the run endpoint for the upload saved as `<id>/<id>`.
pub struct RunCommands {
    /// `<id>/<id>`: where the program is saved.
    pub program: Vec<u8>,
    /// `python3 <id>/<id>`
    pub run: Vec<u8>,
    /// `rm -rf <id>`
    pub cleanup: Vec<u8>,
}

/// The commands of the deploy endpoint for the upload saved as `<id>/<id>`.
pub struct DeployCommands {
    /// `<id>/<id>`: where the program is saved.
    pub program: Vec<u8>,
    /// `cp <base> <id>`: copies the base dockerfile into the work folder.
    pub copy_base: Vec<u8>,
    /// `cat <id>/base_dockerfile > <id>/dockerfile`
    pub start_dockerfile: Vec<u8>,
    /// Appends `COPY <id> /` to the dockerfile.
    pub add_copy: Vec<u8>,
    /// Appends `CMD ["python3","/<id>"]` to the dockerfile.
    pub add_cmd: Vec<u8>,
    /// `docker build -f <id>/dockerfile .`
    pub build: Vec<u8>,
    /// `<id>/<id>.yaml`: where the service manifest is written.
    pub manifest: Vec<u8>,
    /// `kubectl apply -f <id>/<id>.yaml`
    pub apply: Vec<u8>,
}

/// The commands that publish a built image to the registry.
pub struct PublishCommands {
    /// `docker tag <image> registry.bokuno.pw/<image>`
    pub tag: Vec<u8>,
    /// `docker push registry.bokuno.pw/<image>`
    pub push: Vec<u8>,
}

pub open spec fn slash() -> Seq<u8> {
    seq![0x2fu8]
}

pub open spec fn registry() -> Seq<u8> {
    "registry.bokuno.pw".spec_bytes()
}

/// `<id>/<id>`
pub open spec fn work_path(id: Seq<u8>) -> Seq<u8> {
    id + slash() + id
}

/// A lowercase hexadecimal digit.
pub open spec fn is_lower_hex(c: char) -> bool {
    ('0' <= c && c <= '9') || ('a' <= c && c <= 'f')
}

/// The text of a random (version 4) UUID in hyphenated lowercase form:
/// 36 characters, hyphens at 8, 13, 18 and 23, hexadecimal digits elsewhere,
/// the version digit `4` at 14 and a variant digit from `8` to `b` at 19.
pub open spec fn is_v4_uuid_text(s: Seq<char>) -> bool {
    &&& s.len() == 36
    &&& forall|i: int|
        0 <= i < 36 ==> if i == 8 || i == 13 || i == 18 || i == 23 {
            #[trigger] s[i] == '-'
        } else {
            is_lower_hex(s[i])
        }
    &&& s[14] == '4'
    &&& (s[19] == '8' || s[19] == '9' || s[19] == 'a' || s[19] == 'b')
}

/// `uuid::Uuid::new_v4`, written with `to_string`: a random version 4 UUID
/// in hyphenated lowercase form. Which one is left to chance.
#[verifier::external_body]
fn random_uuid_text() -> (r: String)
    ensures
        is_v4_uuid_text(r@),
{
    uuid::Uuid::new_v4().to_string()
}

/// A fresh random name for the files and folder of one upload.
pub fn new_job_id() -> (r: String)
    ensures
        is_v4_uuid_text(r@),
{
    random_uuid_text()
}

/// The file scan commands for the upload saved as `id`.
pub fn filescan_commands(id: &[u8]) -> (r: ScanCommands)
    ensures
        r.scan@ == "clamscan ".spec_bytes() + id@,
        r.checksum@ == "sha256sum -b ".spec_bytes() + id@,
        r.cleanup@ == "rm ".spec_bytes() + id@,
{
    let mut scan = text_bytes("clamscan ");
    append_bytes(&mut scan, id);
    let mut checksum = text_bytes("sha256sum -b ");
    append_bytes(&mut checksum, id);
    let mut cleanup = text_bytes("rm ");
    append_bytes(&mut cleanup, id);
    ScanCommands { scan, checksum, cleanup }
}

/// `<id>/<id>`
fn work_path_of(id: &[u8]) -> (r: Vec<u8>)
    ensures
        r@ == work_path(id@),
{
    let mut r: Vec<u8> = Vec::new();
    append_bytes(&mut r, id);
    r.push(0x2fu8);
    append_bytes(&mut r, id);
    assert(r@ =~= work_path(id@));
    r
}

/// The run commands for the upload saved under the folder `id`.
pub fn mu_commands(id: &[u8]) -> (r: RunCommands)
    ensures
        r.program@ == work_path(id@),
        r.run@ == "python3 ".spec_bytes() + work_path(id@),
        r.cleanup@ == "rm -rf ".spec_bytes() + id@,
{
    let program = work_path_of(id);
    let mut run = text_bytes("python3 ");
    append_bytes(&mut run, program.as_slice());
    let mut cleanup = text_bytes("rm -rf ");
    append_bytes(&mut cleanup, id);
    RunCommands { program, run, cleanup }
}

/// The deploy commands for the upload saved under the folder `id`, with
/// `base` the path of the base dockerfile.
pub fn nu_commands(base: &[u8], id: &[u8]) -> (r: DeployCommands)
    ensures
        r.program@ == work_path(id@),
        r.copy_base@ == "cp ".spec_bytes() + base@ + " ".spec_bytes() + id@,
        r.start_dockerfile@ == "cat ".spec_bytes() + id@ + "/base_dockerfile > ".spec_bytes()
            + id@ + "/dockerfile".spec_bytes(),
        r.add_copy@ == "echo \"\nCOPY ".spec_bytes() + id@ + " /\n\" >> ".spec_bytes() + id@
            + "/dockerfile".spec_bytes(),
        r.add_cmd@ == "echo '\nCMD [\"python3\",\"/".spec_bytes() + id@ + "\"]\n' >> ".spec_bytes()
            + id@ + "/dockerfile".spec_bytes(),
        r.build@ == "docker build -f ".spec_bytes() + id@ + "/dockerfile .".spec_bytes(),
        r.manifest@ == work_path(id@) + ".yaml".spec_bytes(),
        r.apply@ == "kubectl apply -f ".spec_bytes() + work_path(id@) + ".yaml".spec_bytes(),
{
    let program = work_path_of(id);
    let mut copy_base = text_bytes("cp ");
    append_bytes(&mut copy_base, base);
    append_bytes(&mut copy_base, " ".as_bytes());
    append_bytes(&mut copy_base, id);
    let mut start_dockerfile = text_bytes("cat ");
    append_bytes(&mut start_dockerfile, id);
    append_bytes(&mut start_dockerfile, "/base_dockerfile > ".as_bytes());
    append_bytes(&mut start_dockerfile, id);
    append_bytes(&mut start_dockerfile, "/dockerfile".as_bytes());
    let mut add_copy = text_bytes("echo \"\nCOPY ");
    append_bytes(&mut add_copy, id);
    append_bytes(&mut add_copy, " /\n\" >> ".as_bytes());
    append_bytes(&mut add_copy, id);
    append_bytes(&mut add_copy, "/dockerfile".as_bytes());
    let mut add_cmd = text_bytes("echo '\nCMD [\"python3\",\"/");
    append_bytes(&mut add_cmd, id);
    append_bytes(&mut add_cmd, "\"]\n' >> ".as_bytes());
    append_bytes(&mut add_cmd, id);
    append_bytes(&mut add_cmd, "/dockerfile".as_bytes());
    let mut build = text_bytes("docker build -f ");
    append_bytes(&mut build, id);
    append_bytes(&mut build, "/dockerfile .".as_bytes());
    let mut manifest = work_path_of(id);
    append_bytes(&mut manifest, ".yaml".as_bytes());
    let mut apply = text_bytes("kubectl apply -f ");
    append_bytes(&mut apply, manifest.as_slice());
    DeployCommands {
        program,
        copy_base,
        start_dockerfile,
        add_copy,
        add_cmd,
        build,
        manifest,
        apply,
    }
}

/// The commands that tag the built image for the registry and push it.
pub fn publish_commands(image: &[u8]) -> (r: PublishCommands)
    ensures
        r.tag@ == "docker tag ".spec_bytes() + image@ + " ".spec_bytes() + registry() + slash()
            + image@,
        r.push@ == "docker push ".spec_bytes() + registry() + slash() + image@,
{
    let mut tag = text_bytes("docker tag ");
    append_bytes(&mut tag, image);
    append_bytes(&mut tag, " ".as_bytes());
    append_bytes(&mut tag, "registry.bokuno.pw".as_bytes());
    tag.push(0x2fu8);
    append_bytes(&mut tag, image);
    let mut push = text_bytes("docker push ");
    append_bytes(&mut push, "registry.bokuno.pw".as_bytes());
    push.push(0x2fu8);
    append_bytes(&mut push, image);
    proof {
        assert(tag@ =~= "docker tag ".spec_bytes() + image@ + " ".spec_bytes() + registry() + slash()
            + image@);
        assert(push@ =~= "docker push ".spec_bytes() + registry() + slash() + image@);
    }
    PublishCommands { tag, push }
}

} // verus!
