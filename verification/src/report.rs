//! Text renderings of diffs and file lists, for status pages and logs.

use vstd::prelude::*;

verus! {

use vstd::string::StringExecFns;
use crate::decimal::{dec_str_i64, i64_to_decimal};
use crate::records::{FileMetadata, MetadataDiff, VaultMetadata};

/// One client-side entry of the rendering, with its trailing separator.
pub open spec fn client_entry(f: FileMetadata) -> Seq<char> {
    "path { "@ + f.full_path@ + " }, modified { "@ + dec_str_i64(f.modified_time as int)
        + " }, "@
}

/// One server-side entry of the rendering.
pub open spec fn server_entry(f: FileMetadata) -> Seq<char> {
    "path { "@ + f.full_path@ + " }, modified { "@ + dec_str_i64(f.modified_time as int) + " }"@
}

/// The client-side entries of one vault, in order.
pub open spec fn client_entries(files: Seq<FileMetadata>) -> Seq<char>
    decreases files.len(),
{
    if files.len() == 0 {
        Seq::empty()
    } else {
        client_entries(files.drop_last()) + client_entry(files.last())
    }
}

/// The server-side entries of one vault, in order.
pub open spec fn server_entries(files: Seq<FileMetadata>) -> Seq<char>
    decreases files.len(),
{
    if files.len() == 0 {
        Seq::empty()
    } else {
        server_entries(files.drop_last()) + server_entry(files.last())
    }
}

/// The client-side entries of every vault, in order.
pub open spec fn client_pretty(vaults: Seq<VaultMetadata>) -> Seq<char>
    decreases vaults.len(),
{
    if vaults.len() == 0 {
        Seq::empty()
    } else {
        client_pretty(vaults.drop_last()) + client_entries(vaults.last().files@)
    }
}

/// The server-side entries of every vault, in order.
pub open spec fn server_pretty(vaults: Seq<VaultMetadata>) -> Seq<char>
    decreases vaults.len(),
{
    if vaults.len() == 0 {
        Seq::empty()
    } else {
        server_pretty(vaults.drop_last()) + server_entries(vaults.last().files@)
    }
}

impl MetadataDiff {
    /// Renders the diff as two lines of text: each record the client needs
    /// with its path and modification time, then the same for the server.
    pub fn get_pretty_string(&self) -> (r: (String, String))
        ensures
            r.0@ == "client: "@ + client_pretty(self.new_for_client@),
            r.1@ == "server: "@ + server_pretty(self.new_for_server@),
    {
        let mut client_contents = "client: ".to_owned();
        let mut v: usize = 0;
        proof {
            assert(self.new_for_client@.subrange(0, 0) =~= Seq::<VaultMetadata>::empty());
            assert(client_contents@ =~= "client: "@ + client_pretty(self.new_for_client@.subrange(
                0,
                0,
            )));
        }
        while v < self.new_for_client.len()
            invariant
                v <= self.new_for_client@.len(),
                client_contents@ == "client: "@ + client_pretty(self.new_for_client@.subrange(
                    0,
                    v as int,
                )),
            decreases self.new_for_client@.len() - v,
        {
            let vault = &self.new_for_client[v];
            let mut k: usize = 0;
            proof {
                assert(vault.files@.subrange(0, 0) =~= Seq::<FileMetadata>::empty());
                assert(client_entries(vault.files@.subrange(0, 0)) =~= Seq::<char>::empty());
                assert(client_contents@ =~= "client: "@ + client_pretty(
                    self.new_for_client@.subrange(0, v as int),
                ) + client_entries(vault.files@.subrange(0, 0)));
            }
            while k < vault.files.len()
                invariant
                    k <= vault.files@.len(),
                    v < self.new_for_client@.len(),
                    vault == &self.new_for_client@[v as int],
                    client_contents@ == "client: "@ + client_pretty(
                        self.new_for_client@.subrange(0, v as int),
                    ) + client_entries(vault.files@.subrange(0, k as int)),
                decreases vault.files@.len() - k,
            {
                let f = &vault.files[k];
                client_contents.append("path { ");
                client_contents.append(f.full_path.as_str());
                client_contents.append(" }, modified { ");
                client_contents.append(i64_to_decimal(f.modified_time).as_str());
                client_contents.append(" }, ");
                proof {
                    let pre = vault.files@.subrange(0, k + 1 as int);
                    assert(pre.drop_last() =~= vault.files@.subrange(0, k as int));
                    assert(pre.last() == vault.files@[k as int]);
                    assert(client_contents@ =~= "client: "@ + client_pretty(
                        self.new_for_client@.subrange(0, v as int),
                    ) + client_entries(pre));
                }
                k = k + 1;
            }
            proof {
                let pre = self.new_for_client@.subrange(0, v + 1 as int);
                assert(pre.drop_last() =~= self.new_for_client@.subrange(0, v as int));
                assert(pre.last() == self.new_for_client@[v as int]);
                assert(vault.files@.subrange(0, vault.files@.len() as int) =~= vault.files@);
                assert(client_contents@ =~= "client: "@ + client_pretty(pre));
            }
            v = v + 1;
        }
        proof {
            assert(self.new_for_client@.subrange(0, self.new_for_client@.len() as int)
                =~= self.new_for_client@);
        }
        let mut server_contents = "server: ".to_owned();
        let mut w: usize = 0;
        proof {
            assert(self.new_for_server@.subrange(0, 0) =~= Seq::<VaultMetadata>::empty());
            assert(server_contents@ =~= "server: "@ + server_pretty(self.new_for_server@.subrange(
                0,
                0,
            )));
        }
        while w < self.new_for_server.len()
            invariant
                w <= self.new_for_server@.len(),
                server_contents@ == "server: "@ + server_pretty(self.new_for_server@.subrange(
                    0,
                    w as int,
                )),
            decreases self.new_for_server@.len() - w,
        {
            let vault = &self.new_for_server[w];
            let mut k: usize = 0;
            proof {
                assert(vault.files@.subrange(0, 0) =~= Seq::<FileMetadata>::empty());
                assert(server_entries(vault.files@.subrange(0, 0)) =~= Seq::<char>::empty());
                assert(server_contents@ =~= "server: "@ + server_pretty(
                    self.new_for_server@.subrange(0, w as int),
                ) + server_entries(vault.files@.subrange(0, 0)));
            }
            while k < vault.files.len()
                invariant
                    k <= vault.files@.len(),
                    w < self.new_for_server@.len(),
                    vault == &self.new_for_server@[w as int],
                    server_contents@ == "server: "@ + server_pretty(
                        self.new_for_server@.subrange(0, w as int),
                    ) + server_entries(vault.files@.subrange(0, k as int)),
                decreases vault.files@.len() - k,
            {
                let f = &vault.files[k];
                server_contents.append("path { ");
                server_contents.append(f.full_path.as_str());
                server_contents.append(" }, modified { ");
                server_contents.append(i64_to_decimal(f.modified_time).as_str());
                server_contents.append(" }");
                proof {
                    let pre = vault.files@.subrange(0, k + 1 as int);
                    assert(pre.drop_last() =~= vault.files@.subrange(0, k as int));
                    assert(pre.last() == vault.files@[k as int]);
                    assert(server_contents@ =~= "server: "@ + server_pretty(
                        self.new_for_server@.subrange(0, w as int),
                    ) + server_entries(pre));
                }
                k = k + 1;
            }
            proof {
                let pre = self.new_for_server@.subrange(0, w + 1 as int);
                assert(pre.drop_last() =~= self.new_for_server@.subrange(0, w as int));
                assert(pre.last() == self.new_for_server@[w as int]);
                assert(vault.files@.subrange(0, vault.files@.len() as int) =~= vault.files@);
                assert(server_contents@ =~= "server: "@ + server_pretty(pre));
            }
            w = w + 1;
        }
        proof {
            assert(self.new_for_server@.subrange(0, self.new_for_server@.len() as int)
                =~= self.new_for_server@);
        }
        (client_contents, server_contents)
    }
}

/// One line of a file listing.
pub open spec fn file_list_entry(p: Seq<char>) -> Seq<char> {
    "| "@ + p + "\n"@
}

/// The listing of every path, one line each, in order.
pub open spec fn file_list(paths: Seq<String>) -> Seq<char>
    decreases paths.len(),
{
    if paths.len() == 0 {
        Seq::empty()
    } else {
        file_list(paths.drop_last()) + file_list_entry(paths.last()@)
    }
}

/// Renders a file listing, one path per line.
pub fn format_file_list(paths: &Vec<String>) -> (r: String)
    ensures
        r@ == file_list(paths@),
{
    let mut out = String::new();
    let mut k: usize = 0;
    proof {
        assert(paths@.subrange(0, 0) =~= Seq::<String>::empty());
        assert(out@ =~= file_list(paths@.subrange(0, 0)));
    }
    while k < paths.len()
        invariant
            k <= paths@.len(),
            out@ == file_list(paths@.subrange(0, k as int)),
        decreases paths@.len() - k,
    {
        out.append("| ");
        out.append(paths[k].as_str());
        out.append("\n");
        proof {
            let pre = paths@.subrange(0, k + 1 as int);
            assert(pre.drop_last() =~= paths@.subrange(0, k as int));
            assert(pre.last() == paths@[k as int]);
            assert(out@ =~= file_list(pre));
        }
        k = k + 1;
    }
    proof {
        assert(paths@.subrange(0, paths@.len() as int) =~= paths@);
    }
    out
}

/// The records that already carry an assigned identifier, in order.
pub open spec fn assigned_records_seq(files: Seq<FileMetadata>) -> Seq<FileMetadata>
    decreases files.len(),
{
    if files.len() == 0 {
        Seq::empty()
    } else {
        assigned_records_seq(files.drop_last()) + (if files.last().file_id != -1 {
            seq![files.last()]
        } else {
            Seq::empty()
        })
    }
}

/// Keeps only the records that already carry an assigned identifier: the
/// ones whose bodies the server can be asked for.
pub fn filter_assigned_records(files: &Vec<FileMetadata>) -> (r: Vec<FileMetadata>)
    ensures
        r@ == assigned_records_seq(files@),
{
    let mut out: Vec<FileMetadata> = Vec::new();
    let mut k: usize = 0;
    proof {
        assert(files@.subrange(0, 0) =~= Seq::<FileMetadata>::empty());
    }
    while k < files.len()
        invariant
            k <= files@.len(),
            out@ == assigned_records_seq(files@.subrange(0, k as int)),
        decreases files@.len() - k,
    {
        if files[k].file_id != -1 {
            out.push(files[k].duplicate());
        }
        proof {
            let pre = files@.subrange(0, k + 1 as int);
            assert(pre.drop_last() =~= files@.subrange(0, k as int));
            assert(pre.last() == files@[k as int]);
            assert(out@ =~= assigned_records_seq(pre));
        }
        k = k + 1;
    }
    proof {
        assert(files@.subrange(0, files@.len() as int) =~= files@);
    }
    out
}

} // verus!
