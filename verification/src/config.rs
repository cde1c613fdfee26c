//! The file-server configuration and its rewriting for the container image.

use vstd::prelude::*;
use crate::error::{ContainerError, ErrorKind};
use crate::path_map::{get_container_pathbuf, is_descendant, remap_spec};

verus! {

/// The host every remapped configuration listens on.
pub const CNTR_HOST: &'static str = "0.0.0.0";

/// The port every remapped configuration listens on.
pub const CNTR_PORT: u16 = 3000;

/// The fixed in-image directory to which all configured files are relocated.
pub const CTNR_TARGET_DIR: &'static str = "/usr/share/www";

/// The name of the serialized configuration file.
pub const FILE_SERVER_JSON_TARGET: &'static str = "file-server.json";

/// The name of the rendered template file.
pub const PODMAN_COMPOSE_TARGET: &'static str = "file-server.podman-compose.yml";

/// A file-server configuration: where it listens, the directory it serves,
/// and the three error pages, each expected to be a descendant of that
/// directory. Paths are their text: absolute, `/`-separated.
#[derive(Debug)]
pub struct Config {
    pub host: String,
    pub port: u16,
    pub directory: String,
    pub filepath_403: String,
    pub filepath_404: String,
    pub filepath_500: String,
}

/// All three error-page paths of `c` are descendants of its directory.
pub open spec fn paths_mappable(c: Config) -> bool {
    &&& is_descendant(c.filepath_403@, c.directory@)
    &&& is_descendant(c.filepath_404@, c.directory@)
    &&& is_descendant(c.filepath_500@, c.directory@)
}

/// Rewrites `config` for the container image: the directory becomes the
/// fixed container target directory, each error-page path its equivalent
/// under it, and host and port the fixed literals, whatever the input held.
/// Fails with the path-mapping error exactly when some error-page path is
/// not a descendant of the input directory, and then produces no output.
pub fn create_container_config(config: &Config) -> (r: Result<Config, ContainerError>)
    ensures
        match r {
            Ok(out) => paths_mappable(*config)
                && out.host@ == CNTR_HOST@
                && out.port == CNTR_PORT
                && out.directory@ == CTNR_TARGET_DIR@
                && out.filepath_403@ == remap_spec(config.directory@, config.filepath_403@, CTNR_TARGET_DIR@)
                && out.filepath_404@ == remap_spec(config.directory@, config.filepath_404@, CTNR_TARGET_DIR@)
                && out.filepath_500@ == remap_spec(config.directory@, config.filepath_500@, CTNR_TARGET_DIR@),
            Err(e) => !paths_mappable(*config) && e.kind == ErrorKind::PathMapping,
        },
{
    let dest: String = CTNR_TARGET_DIR.to_owned();

    let fp_403 = match get_container_pathbuf(&config.directory, &config.filepath_403, &dest) {
        Ok(fp) => fp,
        Err(e) => return Err(e),
    };

    let fp_404 = match get_container_pathbuf(&config.directory, &config.filepath_404, &dest) {
        Ok(fp) => fp,
        Err(e) => return Err(e),
    };

    let fp_500 = match get_container_pathbuf(&config.directory, &config.filepath_500, &dest) {
        Ok(fp) => fp,
        Err(e) => return Err(e),
    };

    Ok(Config {
        host: CNTR_HOST.to_owned(),
        port: CNTR_PORT,
        directory: dest,
        filepath_403: fp_403,
        filepath_404: fp_404,
        filepath_500: fp_500,
    })
}

} // verus!
