//! Where the data files of each kind live and how they are named.

use vstd::prelude::*;
use crate::text;

pub mod listing;
pub mod ensemble;
pub mod simulation;
pub mod analysis;
pub mod collect;

verus! {

/// The kinds of data that are kept on disk, each in a folder of its own.
#[derive(Debug, Clone, Copy, PartialEq, Eq, Structural)]
pub enum DataType {
    Ensemble,
    Simulation,
    Analysis,
}

/// The name of the folder that holds data of kind `d`.
pub open spec fn folder_text(d: DataType) -> Seq<char> {
    match d {
        DataType::Ensemble => seq!['e', 'n', 's', 'e', 'm', 'b', 'l', 'e'],
        DataType::Simulation => seq!['s', 'i', 'm', 'u', 'l', 'a', 't', 'i', 'o', 'n'],
        DataType::Analysis => seq!['a', 'n', 'a', 'l', 'y', 's', 'i', 's'],
    }
}

/// `./data`, the root of the binary data files.
pub open spec fn data_root_text() -> Seq<char> {
    seq!['.', '/', 'd', 'a', 't', 'a']
}

/// `./plots/data`, the root of the JSON exports.
pub open spec fn plots_root_text() -> Seq<char> {
    seq!['.', '/', 'p', 'l', 'o', 't', 's', '/', 'd', 'a', 't', 'a']
}

/// The file name `t{tag}-i{id}` followed by the extension `ext`.
pub open spec fn entry_file_name_text(tag: usize, id: usize, ext: Seq<char>) -> Seq<char> {
    seq!['t'] + text::decimal_text(tag as nat) + seq!['-', 'i'] + text::decimal_text(id as nat) + seq!['.']
        + ext
}

/// `{root}/{folder}/t{tag}-i{id}.{ext}`.
pub open spec fn entry_path_text(
    root: Seq<char>,
    d: DataType,
    tag: usize,
    id: usize,
    ext: Seq<char>,
) -> Seq<char> {
    root + seq!['/'] + folder_text(d) + seq!['/'] + entry_file_name_text(tag, id, ext)
}

/// `./data/{folder}/t{tag}-i{id}.bin`, where a data file is saved in binary.
pub open spec fn binary_path_text(d: DataType, tag: usize, id: usize) -> Seq<char> {
    entry_path_text(data_root_text(), d, tag, id, seq!['b', 'i', 'n'])
}

/// `./plots/data/{folder}/t{tag}-i{id}.json`, where a data file is exported as JSON.
pub open spec fn json_path_text(d: DataType, tag: usize, id: usize) -> Seq<char> {
    entry_path_text(plots_root_text(), d, tag, id, seq!['j', 's', 'o', 'n'])
}

impl DataType {
    /// The name of the folder that holds data of this kind.
    pub fn folder(&self) -> (name: &'static str)
        ensures
            name@ == folder_text(*self),
    {
        proof {
            reveal_strlit("ensemble");
            reveal_strlit("simulation");
            reveal_strlit("analysis");
        }
        let name = match self {
            DataType::Ensemble => "ensemble",
            DataType::Simulation => "simulation",
            DataType::Analysis => "analysis",
        };
        assert(name@ =~= folder_text(*self));
        name
    }
}

/// Appends `{root}/{folder}/t{tag}-i{id}.{ext}` to an empty string.
fn entry_path(root: &str, d: DataType, tag: usize, id: usize, ext: &str) -> (p: String)
    ensures
        p@ == entry_path_text(root@, d, tag, id, ext@),
{
    proof {
        reveal_strlit("/");
        reveal_strlit("/t");
        reveal_strlit("-i");
        reveal_strlit(".");
    }
    let mut p = String::from_str(root);
    p.append("/");
    p.append(d.folder());
    p.append("/t");
    text::push_decimal(&mut p, tag);
    p.append("-i");
    text::push_decimal(&mut p, id);
    p.append(".");
    p.append(ext);
    assert(p@ =~= entry_path_text(root@, d, tag, id, ext@));
    p
}

/// The path under which a data file of kind `d` with this tag and id is
/// saved in binary: `./data/{folder}/t{tag}-i{id}.bin`.
pub fn binary_path(d: DataType, tag: usize, id: usize) -> (p: String)
    ensures
        p@ == binary_path_text(d, tag, id),
{
    proof {
        reveal_strlit("./data");
        reveal_strlit("bin");
    }
    let p = entry_path("./data", d, tag, id, "bin");
    assert("./data"@ =~= data_root_text());
    assert("bin"@ =~= seq!['b', 'i', 'n']);
    p
}

/// The path under which a data file of kind `d` with this tag and id is
/// exported as JSON: `./plots/data/{folder}/t{tag}-i{id}.json`.
pub fn json_path(d: DataType, tag: usize, id: usize) -> (p: String)
    ensures
        p@ == json_path_text(d, tag, id),
{
    proof {
        reveal_strlit("./plots/data");
        reveal_strlit("json");
    }
    let p = entry_path("./plots/data", d, tag, id, "json");
    assert("./plots/data"@ =~= plots_root_text());
    assert("json"@ =~= seq!['j', 's', 'o', 'n']);
    p
}

/// `{tag}-{id}.{ext}`, the name of a file kept under a text tag.
pub open spec fn tagged_file_name_text(tag: Seq<char>, id: usize, ext: Seq<char>) -> Seq<char> {
    tag + seq!['-'] + text::decimal_text(id as nat) + seq!['.'] + ext
}

/// The path of a file kept under a text tag: its file name joined to the
/// folder of kind `d` as `Path::join` joins them (a name that starts with
/// `/` is absolute and stands alone).
pub open spec fn tagged_path_text(d: DataType, tag: Seq<char>, id: usize, ext: Seq<char>) -> Seq<char> {
    let name = tagged_file_name_text(tag, id, ext);
    if tag.len() > 0 && tag[0] == '/' {
        name
    } else {
        data_root_text() + seq!['/'] + folder_text(d) + seq!['/'] + name
    }
}

/// `{tag}-{id}.bin`, the name of a data file saved under a text tag.
pub open spec fn data_file_name_text(tag: Seq<char>, id: usize) -> Seq<char> {
    tagged_file_name_text(tag, id, seq!['b', 'i', 'n'])
}

/// The path of a data file saved under a text tag, in the folder of its kind.
pub open spec fn data_path_text(d: DataType, tag: Seq<char>, id: usize) -> Seq<char> {
    tagged_path_text(d, tag, id, seq!['b', 'i', 'n'])
}

/// The path of the JSON export of a simulation saved under a text tag:
/// `./data/simulation/{tag}-{id}.json`.
pub open spec fn export_path_text(tag: Seq<char>, id: usize) -> Seq<char> {
    tagged_path_text(DataType::Simulation, tag, id, seq!['j', 's', 'o', 'n'])
}

fn tagged_path(d: DataType, tag: &str, id: usize, ext: &str) -> (p: String)
    ensures
        p@ == tagged_path_text(d, tag@, id, ext@),
{
    proof {
        reveal_strlit("./data/");
        reveal_strlit("/");
        reveal_strlit("-");
        reveal_strlit(".");
    }
    let absolute = tag.unicode_len() > 0 && tag.get_char(0) == '/';
    let mut p = String::new();
    if !absolute {
        p.append("./data/");
        p.append(d.folder());
        p.append("/");
    }
    p.append(tag);
    p.append("-");
    text::push_decimal(&mut p, id);
    p.append(".");
    p.append(ext);
    assert(p@ =~= tagged_path_text(d, tag@, id, ext@));
    p
}

/// The path of the data file of kind `d` saved under this tag and id:
/// `./data/{folder}/{tag}-{id}.bin`.
pub fn get_data_path(d: DataType, tag: &str, id: usize) -> (p: String)
    ensures
        p@ == data_path_text(d, tag@, id),
{
    proof {
        reveal_strlit("bin");
    }
    let p = tagged_path(d, tag, id, "bin");
    assert("bin"@ =~= seq!['b', 'i', 'n']);
    p
}

/// Where the simulation saved under this tag and id is exported as JSON:
/// `./data/simulation/{tag}-{id}.json`.
pub fn get_export_path(tag: &str, id: usize) -> (p: String)
    ensures
        p@ == export_path_text(tag@, id),
{
    proof {
        reveal_strlit("json");
    }
    let p = tagged_path(DataType::Simulation, tag, id, "json");
    assert("json"@ =~= seq!['j', 's', 'o', 'n']);
    p
}

/// A data file saved under a tag without `/` lands in the folder of its
/// kind, and the listing of that folder reads the same tag and id back from
/// the file's name.
pub proof fn lemma_data_name_round_trip(d: DataType, tag: Seq<char>, id: usize)
    requires
        forall|i: int| 0 <= i < tag.len() ==> tag[i] != '/',
    ensures
        data_path_text(d, tag, id) == data_root_text() + seq!['/'] + folder_text(d) + seq!['/']
            + data_file_name_text(tag, id),
        listing::tag_and_id_text(data_file_name_text(tag, id)) == Some((tag, id)),
{
    let dec = text::decimal_text(id as nat);
    text::lemma_decimal_text(id as nat);
    text::lemma_parse_decimal_text(id);
    let name = data_file_name_text(tag, id);
    let stem = tag + seq!['-'] + dec;
    let dot = stem.len() as int;
    assert(name =~= stem + seq!['.', 'b', 'i', 'n']);
    assert(name[dot] == '.');
    assert forall|i: int| dot < i < name.len() implies name[i] != '.' by {}
    listing::lemma_last_index_of_at(name, '.', dot);
    assert(name != seq!['.', '.']) by {
        assert(name.len() != 2);
    }
    assert(name.subrange(0, dot) =~= stem);
    assert(name.subrange(dot + 1, name.len() as int) =~= listing::bin_text());
    let dash = tag.len() as int;
    assert(stem[dash] == '-');
    assert forall|i: int| dash < i < stem.len() implies stem[i] != '-' by {
        assert(stem[i] == dec[i - dash - 1]);
    }
    listing::lemma_last_index_of_at(stem, '-', dash);
    assert(stem.subrange(dash + 1, stem.len() as int) =~= dec);
    assert(stem.subrange(0, dash) =~= tag);
}

/// `name` is the name of an entry file with this tag and id: `t`, then a
/// text that reads as `tag`, then `-i`, then a text that reads as `id`,
/// then a dot and `ext`.
pub open spec fn names_entry(name: Seq<char>, tag: usize, id: usize, ext: Seq<char>) -> bool {
    let cut = name.len() - ext.len() - 1;
    &&& cut >= 0
    &&& name.subrange(cut, name.len() as int) == seq!['.'] + ext
    &&& name.len() > 0 && name[0] == 't'
    &&& exists|j: int|
        #![trigger name.subrange(1, j)]
        1 <= j && j + 2 <= cut && text::parse_usize_text(name.subrange(1, j)) == Some(tag)
            && name[j] == '-' && name[j + 1] == 'i' && text::parse_usize_text(
            name.subrange(j + 2, cut),
        ) == Some(id)
}

/// `name` is the name of a file kept under a text tag: the tag, a dash,
/// a text that reads as `id`, then a dot and `ext`.
pub open spec fn names_tagged(name: Seq<char>, tag: Seq<char>, id: usize, ext: Seq<char>) -> bool {
    let cut = name.len() - ext.len() - 1;
    &&& tag.len() + 1 <= cut
    &&& name.subrange(cut, name.len() as int) == seq!['.'] + ext
    &&& name.subrange(0, tag.len() as int) == tag
    &&& name[tag.len() as int] == '-'
    &&& text::parse_usize_text(name.subrange(tag.len() as int + 1, cut)) == Some(id)
}

proof fn lemma_entry_name(tag: usize, id: usize, ext: Seq<char>)
    ensures
        names_entry(entry_file_name_text(tag, id, ext), tag, id, ext),
{
    let name = entry_file_name_text(tag, id, ext);
    let dt = text::decimal_text(tag as nat);
    let di = text::decimal_text(id as nat);
    text::lemma_parse_decimal_text(tag);
    text::lemma_parse_decimal_text(id);
    let j: int = 1 + dt.len() as int;
    let cut = name.len() - ext.len() - 1;
    assert(name =~= seq!['t'] + dt + seq!['-', 'i'] + di + seq!['.'] + ext);
    assert(cut == j + 2 + di.len());
    assert(name.subrange(1, j) =~= dt);
    assert(name.subrange(j + 2, cut) =~= di);
    assert(name.subrange(cut, name.len() as int) =~= seq!['.'] + ext);
}

/// Where a data entry is saved in binary: in the folder of its kind under
/// `./data`, in a file whose name reads back as its tag and id.
pub proof fn lemma_binary_path_names_entry(d: DataType, tag: usize, id: usize)
    ensures
        ({
            let p = binary_path_text(d, tag, id);
            let dir = data_root_text() + seq!['/'] + folder_text(d) + seq!['/'];
            &&& p.subrange(0, dir.len() as int) == dir
            &&& names_entry(p.subrange(dir.len() as int, p.len() as int), tag, id, seq!['b', 'i', 'n'])
        }),
{
    let p = binary_path_text(d, tag, id);
    let dir = data_root_text() + seq!['/'] + folder_text(d) + seq!['/'];
    let name = entry_file_name_text(tag, id, seq!['b', 'i', 'n']);
    assert(p =~= dir + name);
    assert(p.subrange(0, dir.len() as int) =~= dir);
    assert(p.subrange(dir.len() as int, p.len() as int) =~= name);
    lemma_entry_name(tag, id, seq!['b', 'i', 'n']);
}

/// Where a data entry is exported as JSON: in the folder of its kind under
/// `./plots/data`, in a file whose name reads back as its tag and id.
pub proof fn lemma_json_path_names_entry(d: DataType, tag: usize, id: usize)
    ensures
        ({
            let p = json_path_text(d, tag, id);
            let dir = plots_root_text() + seq!['/'] + folder_text(d) + seq!['/'];
            &&& p.subrange(0, dir.len() as int) == dir
            &&& names_entry(p.subrange(dir.len() as int, p.len() as int), tag, id, seq!['j', 's', 'o', 'n'])
        }),
{
    let p = json_path_text(d, tag, id);
    let dir = plots_root_text() + seq!['/'] + folder_text(d) + seq!['/'];
    let name = entry_file_name_text(tag, id, seq!['j', 's', 'o', 'n']);
    assert(p =~= dir + name);
    assert(p.subrange(0, dir.len() as int) =~= dir);
    assert(p.subrange(dir.len() as int, p.len() as int) =~= name);
    lemma_entry_name(tag, id, seq!['j', 's', 'o', 'n']);
}

/// The name of an entry file determines the tag and the id it reads as.
proof fn lemma_names_entry_unique(name: Seq<char>, ext: Seq<char>, t1: usize, i1: usize, t2: usize, i2: usize)
    requires
        names_entry(name, t1, i1, ext),
        names_entry(name, t2, i2, ext),
    ensures
        t1 == t2,
        i1 == i2,
{
    let cut = name.len() - ext.len() - 1;
    let j1 = choose|j: int|
        #![trigger name.subrange(1, j)]
        1 <= j && j + 2 <= cut && text::parse_usize_text(name.subrange(1, j)) == Some(t1)
            && name[j] == '-' && name[j + 1] == 'i' && text::parse_usize_text(
            name.subrange(j + 2, cut),
        ) == Some(i1);
    let j2 = choose|j: int|
        #![trigger name.subrange(1, j)]
        1 <= j && j + 2 <= cut && text::parse_usize_text(name.subrange(1, j)) == Some(t2)
            && name[j] == '-' && name[j + 1] == 'i' && text::parse_usize_text(
            name.subrange(j + 2, cut),
        ) == Some(i2);
    text::lemma_parsed_has_no_dash(name.subrange(1, j1));
    text::lemma_parsed_has_no_dash(name.subrange(1, j2));
    if j1 < j2 {
        assert(name.subrange(1, j2)[j1 - 1] == name[j1]);
    } else if j2 < j1 {
        assert(name.subrange(1, j1)[j2 - 1] == name[j2]);
    }
}

/// Entries of one kind with different tags or ids are saved at different
/// binary paths and exported to different JSON paths.
pub proof fn lemma_entry_paths_distinct(d: DataType, t1: usize, i1: usize, t2: usize, i2: usize)
    requires
        t1 != t2 || i1 != i2,
    ensures
        binary_path_text(d, t1, i1) != binary_path_text(d, t2, i2),
        json_path_text(d, t1, i1) != json_path_text(d, t2, i2),
{
    lemma_binary_path_names_entry(d, t1, i1);
    lemma_binary_path_names_entry(d, t2, i2);
    lemma_json_path_names_entry(d, t1, i1);
    lemma_json_path_names_entry(d, t2, i2);
    let bdir = data_root_text() + seq!['/'] + folder_text(d) + seq!['/'];
    let jdir = plots_root_text() + seq!['/'] + folder_text(d) + seq!['/'];
    if binary_path_text(d, t1, i1) == binary_path_text(d, t2, i2) {
        let p = binary_path_text(d, t1, i1);
        lemma_names_entry_unique(p.subrange(bdir.len() as int, p.len() as int), seq!['b', 'i', 'n'], t1, i1, t2, i2);
    }
    if json_path_text(d, t1, i1) == json_path_text(d, t2, i2) {
        let p = json_path_text(d, t1, i1);
        lemma_names_entry_unique(p.subrange(jdir.len() as int, p.len() as int), seq!['j', 's', 'o', 'n'], t1, i1, t2, i2);
    }
}

/// `./data/simulation/`, the folder of simulation exports.
pub open spec fn simulation_dir_text() -> Seq<char> {
    seq!['.', '/', 'd', 'a', 't', 'a', '/', 's', 'i', 'm', 'u', 'l', 'a', 't', 'i', 'o', 'n', '/']
}

/// Where a simulation saved under a text tag is exported as JSON: in
/// `./data/simulation/` (unless the tag is an absolute path), in a file
/// named by the tag, a dash, the id and `.json`; so one tag with two ids
/// never shares an export path.
pub proof fn lemma_export_path_names_run(tag: Seq<char>, id: usize, other_id: usize)
    ensures
        ({
            let p = export_path_text(tag, id);
            let dir = if tag.len() > 0 && tag[0] == '/' {
                Seq::<char>::empty()
            } else {
                simulation_dir_text()
            };
            &&& p.subrange(0, dir.len() as int) == dir
            &&& names_tagged(p.subrange(dir.len() as int, p.len() as int), tag, id, seq!['j', 's', 'o', 'n'])
        }),
        id != other_id ==> export_path_text(tag, id) != export_path_text(tag, other_id),
{
    let json = seq!['j', 's', 'o', 'n'];
    let dir = if tag.len() > 0 && tag[0] == '/' {
        Seq::<char>::empty()
    } else {
        simulation_dir_text()
    };
    assert(dir.len() == 0 || dir =~= data_root_text() + seq!['/'] + folder_text(DataType::Simulation) + seq!['/']);
    let p = export_path_text(tag, id);
    let q = export_path_text(tag, other_id);
    let name = tagged_file_name_text(tag, id, json);
    let qname = tagged_file_name_text(tag, other_id, json);
    assert(p =~= dir + name);
    assert(q =~= dir + qname);
    text::lemma_parse_decimal_text(id);
    text::lemma_parse_decimal_text(other_id);
    let di = text::decimal_text(id as nat);
    let cut = name.len() - 5;
    assert(name =~= tag + seq!['-'] + di + seq!['.'] + json);
    assert(p.subrange(0, dir.len() as int) =~= dir);
    assert(p.subrange(dir.len() as int, p.len() as int) =~= name);
    assert(name.subrange(cut, name.len() as int) =~= seq!['.'] + json);
    assert(name.subrange(0, tag.len() as int) =~= tag);
    assert(name.subrange(tag.len() as int + 1, cut) =~= di);
    if id != other_id && p == q {
        let dq = text::decimal_text(other_id as nat);
        assert(qname =~= tag + seq!['-'] + dq + seq!['.'] + json);
        assert(name =~= p.subrange(dir.len() as int, p.len() as int));
        assert(qname =~= q.subrange(dir.len() as int, q.len() as int));
        assert(qname.subrange(tag.len() as int + 1, qname.len() - 5) =~= dq);
    }
}

/// Data that is saved to disk, found by its kind, its tag and its id.
pub trait DataPersistence {
    /// The kind of data this is, in specifications.
    spec fn spec_data_type() -> DataType;

    /// The id of this entry, in specifications.
    spec fn spec_id(&self) -> usize;

    /// The tag of this entry, in specifications.
    spec fn spec_tag(&self) -> usize;

    /// The kind of data this is.
    fn data_type() -> (d: DataType)
        ensures
            d == Self::spec_data_type(),
    ;

    /// The id of this entry.
    fn id(&self) -> (i: usize)
        ensures
            i == self.spec_id(),
    ;

    /// The tag of this entry.
    fn tag(&self) -> (t: usize)
        ensures
            t == self.spec_tag(),
    ;

    /// Where this entry is saved in binary:
    /// `./data/{folder}/t{tag}-i{id}.bin`.
    fn binary_path(&self) -> (p: String)
        ensures
            p@ == binary_path_text(Self::spec_data_type(), self.spec_tag(), self.spec_id()),
    {
        binary_path(Self::data_type(), self.tag(), self.id())
    }

    /// Where this entry is exported as JSON:
    /// `./plots/data/{folder}/t{tag}-i{id}.json`.
    fn json_path(&self) -> (p: String)
        ensures
            p@ == json_path_text(Self::spec_data_type(), self.spec_tag(), self.spec_id()),
    {
        json_path(Self::data_type(), self.tag(), self.id())
    }
}

} // verus!
