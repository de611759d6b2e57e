//! Configuration of the fetch utility: where the object list lives and
//! where downloads and installed files go.

use vstd::prelude::*;

use crate::link::{join_path, spec_join};

verus! {

/// The utility's configuration, as read from its configuration file.
pub struct Config {
    api_endpoint: String,
    bucket_name: String,
    cache_dir: String,
    data_dir: String,
}

impl Config {
    /// The configured API endpoint.
    pub closed spec fn spec_api_endpoint(&self) -> Seq<char> {
        self.api_endpoint@
    }

    /// The configured bucket name.
    pub closed spec fn spec_bucket_name(&self) -> Seq<char> {
        self.bucket_name@
    }

    /// The configured cache root.
    pub closed spec fn spec_cache_dir(&self) -> Seq<char> {
        self.cache_dir@
    }

    /// The configured data root.
    pub closed spec fn spec_data_dir(&self) -> Seq<char> {
        self.data_dir@
    }

    /// A configuration from its four fields.
    pub fn new(
        api_endpoint: String,
        bucket_name: String,
        cache_dir: String,
        data_dir: String,
    ) -> (r: Config)
        ensures
            r.spec_api_endpoint() == api_endpoint@,
            r.spec_bucket_name() == bucket_name@,
            r.spec_cache_dir() == cache_dir@,
            r.spec_data_dir() == data_dir@,
    {
        Config { api_endpoint, bucket_name, cache_dir, data_dir }
    }

    /// The application's own cache directory under the configured cache
    /// root.
    pub fn cache_dir(&self) -> (r: String)
        ensures
            r@ == spec_join(self.spec_cache_dir(), "seiran"@),
    {
        join_path(self.cache_dir.as_str(), "seiran")
    }

    /// The application's own data directory under the configured data
    /// root.
    pub fn data_dir(&self) -> (r: String)
        ensures
            r@ == spec_join(self.spec_data_dir(), "seiran"@),
    {
        join_path(self.data_dir.as_str(), "seiran")
    }

    /// The URL of the bucket's object-listing endpoint.
    pub fn list_api(self) -> (r: String)
        ensures
            r@ == self.spec_api_endpoint() + "b/"@ + self.spec_bucket_name() + "/o"@,
    {
        let Config { api_endpoint, bucket_name, cache_dir: _, data_dir: _ } = self;
        let mut s = api_endpoint;
        s.append("b/");
        s.append(bucket_name.as_str());
        s.append("/o");
        s
    }
}

} // verus!
