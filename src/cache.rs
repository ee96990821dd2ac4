use vstd::prelude::*;
use crate::targets::names_view;
use crate::text::{push_chars, string_from_chars};

verus! {

/// Which query to run for a workspace, and under which dataset name its
/// output is cached.
#[derive(Clone, Debug)]
pub struct UpdateQueryOptions {
    pub workspace_name: String,
    pub filename: String,
    pub query: String,
}

/// A run of the external query command whose standard output is stored at
/// `path`, after the directory `dir` has been created.
#[derive(Clone, Debug)]
pub struct QueryRun {
    pub dir: String,
    pub path: String,
    pub args: Vec<String>,
}

/// What to do to obtain the bytes of a dataset.
#[derive(Clone, Debug)]
pub enum CacheStep {
    /// The dataset is cached: read the file.
    Read(String),
    /// The dataset is missing: run the query and store its output.
    Run(QueryRun),
}

/// A `QueryRun` as plain values.
pub struct RunModel {
    pub dir: Seq<char>,
    pub path: Seq<char>,
    pub args: Seq<Seq<char>>,
}

/// A `CacheStep` as plain values.
pub enum StepModel {
    Read(Seq<char>),
    Run(RunModel),
}

impl View for QueryRun {
    type V = RunModel;

    open spec fn view(&self) -> RunModel {
        RunModel { dir: self.dir@, path: self.path@, args: names_view(self.args@) }
    }
}

impl View for CacheStep {
    type V = StepModel;

    open spec fn view(&self) -> StepModel {
        match self {
            CacheStep::Read(p) => StepModel::Read(p@),
            CacheStep::Run(run) => StepModel::Run(run@),
        }
    }
}

/// The cache directory of a workspace under the cache root.
pub open spec fn cache_dir(root: Seq<char>, workspace: Seq<char>) -> Seq<char> {
    root + "/"@ + workspace
}

/// The file that caches a dataset of a workspace.
pub open spec fn bin_path(root: Seq<char>, workspace: Seq<char>, dataset: Seq<char>) -> Seq<
    char,
> {
    cache_dir(root, workspace) + "/"@ + dataset + ".bin"@
}

/// The arguments of the query command for an expression: binary output.
pub open spec fn query_args(query: Seq<char>) -> Seq<Seq<char>> {
    seq!["query"@, query, "--output=proto"@]
}

/// The run that refreshes a dataset.
pub open spec fn refresh(root: Seq<char>, workspace: Seq<char>, dataset: Seq<char>, query: Seq<char>) -> RunModel {
    RunModel {
        dir: cache_dir(root, workspace),
        path: bin_path(root, workspace, dataset),
        args: query_args(query),
    }
}

/// What obtaining a dataset takes: a cached file is read, whatever the
/// query; a missing one is fetched by running the query.
pub open spec fn next_step(
    root: Seq<char>,
    workspace: Seq<char>,
    dataset: Seq<char>,
    query: Seq<char>,
    cached: bool,
) -> StepModel {
    if cached {
        StepModel::Read(bin_path(root, workspace, dataset))
    } else {
        StepModel::Run(refresh(root, workspace, dataset, query))
    }
}

fn owned(s: &str) -> (r: String)
    ensures
        r@ == s@,
{
    s.to_owned()
}

/// The cache directory of a workspace under `cache_root`.
pub fn get_cache_dir(cache_root: &str, workspace_name: &str) -> (r: String)
    ensures
        r@ == cache_dir(cache_root@, workspace_name@),
{
    let mut c: Vec<char> = Vec::new();
    push_chars(&mut c, cache_root);
    push_chars(&mut c, "/");
    push_chars(&mut c, workspace_name);
    string_from_chars(c.as_slice())
}

/// The file `<cache_root>/<workspace_name>/<filename>.bin`.
pub fn get_query_bin_file_path(cache_root: &str, workspace_name: &str, filename: &str) -> (r:
    String)
    ensures
        r@ == bin_path(cache_root@, workspace_name@, filename@),
{
    let mut c: Vec<char> = Vec::new();
    push_chars(&mut c, cache_root);
    push_chars(&mut c, "/");
    push_chars(&mut c, workspace_name);
    push_chars(&mut c, "/");
    push_chars(&mut c, filename);
    push_chars(&mut c, ".bin");
    string_from_chars(c.as_slice())
}

/// The run that refreshes the dataset that `options` names, whether or not
/// it is cached.
pub fn update_query(cache_root: &str, options: &UpdateQueryOptions) -> (r: QueryRun)
    ensures
        r@ == refresh(cache_root@, options.workspace_name@, options.filename@, options.query@),
{
    let dir = get_cache_dir(cache_root, options.workspace_name.as_str());
    let path = get_query_bin_file_path(
        cache_root,
        options.workspace_name.as_str(),
        options.filename.as_str(),
    );
    let mut args: Vec<String> = Vec::new();
    args.push(owned("query"));
    args.push(options.query.clone());
    args.push(owned("--output=proto"));
    assert(names_view(args@) == query_args(options.query@));
    QueryRun { dir, path, args }
}

/// The run that refreshes the `external` dataset of a workspace with the
/// query `//external:*`.
pub fn update_external(cache_root: &str, workspace_name: &str) -> (r: QueryRun)
    ensures
        r@ == refresh(cache_root@, workspace_name@, "external"@, "//external:*"@),
{
    let options = UpdateQueryOptions {
        workspace_name: owned(workspace_name),
        filename: owned("external"),
        query: owned("//external:*"),
    };
    update_query(cache_root, &options)
}

/// What obtaining the dataset that `options` names takes, where `cached`
/// tells whether its file exists: presence of the file is the only sign
/// that the cache is valid.
pub fn query_step(cache_root: &str, options: &UpdateQueryOptions, cached: bool) -> (r: CacheStep)
    ensures
        r@ == next_step(
            cache_root@,
            options.workspace_name@,
            options.filename@,
            options.query@,
            cached,
        ),
{
    if cached {
        CacheStep::Read(
            get_query_bin_file_path(
                cache_root,
                options.workspace_name.as_str(),
                options.filename.as_str(),
            ),
        )
    } else {
        CacheStep::Run(update_query(cache_root, options))
    }
}

/// A dataset whose file is present is read and never fetched again, and
/// two requests for it, with any queries, take the same step.
pub proof fn lemma_cached_dataset_is_read(
    root: Seq<char>,
    workspace: Seq<char>,
    dataset: Seq<char>,
    first_query: Seq<char>,
    second_query: Seq<char>,
)
    ensures
        next_step(root, workspace, dataset, first_query, true) == StepModel::Read(
            bin_path(root, workspace, dataset),
        ),
        next_step(root, workspace, dataset, first_query, true) == next_step(
            root,
            workspace,
            dataset,
            second_query,
            true,
        ),
{
}

} // verus!
