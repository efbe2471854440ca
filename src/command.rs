//! The wallet commands of the command-line client, apart from their input
//! and output.
use vstd::prelude::*;
use crate::client::DefaultWalletClient;
use crate::error::{Error, ErrorKind};
use crate::index::Index;
use crate::wallet::wallet_pos;

verus! {

/// A wallet command.
#[derive(Debug)]
pub enum WalletCommand {
    /// Creates a wallet of this name.
    New { name: String },
    /// Lists the wallets.
    List,
}

impl WalletCommand {
    /// Runs the command. `New` takes the passphrase twice, as it was typed
    /// and as it was confirmed, and fails with `InvalidInput` when the two
    /// differ; it returns the new wallet's name. `List` returns the names of
    /// the wallets and ignores the passphrases.
    pub fn execute<I: Index>(
        &self,
        wallet_client: &mut DefaultWalletClient<I>,
        passphrase: &str,
        confirmed_passphrase: &str,
    ) -> (r: Result<Vec<String>, Error>)
        requires
            old(wallet_client).wf(),
        ensures
            final(wallet_client).wf(),
            match self {
                WalletCommand::New { name } => if passphrase@ != confirmed_passphrase@ {
                    (r matches Err(e) && e.kind == ErrorKind::InvalidInput) && *final(wallet_client)
                        == *old(wallet_client)
                } else {
                    match old(wallet_client).storage_spec() {
                        None => r matches Err(e) && e.kind == ErrorKind::PermissionDenied,
                        Some(s) => (wallet_pos(s.wallets_spec(), name@, 0) is None <==> r is Ok)
                            && (r matches Ok(v) ==> v@.len() == 1 && v@[0]@ == name@ && (final(wallet_client).storage_spec() matches Some(t) && t.wallets_spec().drop_last()
                            == s.wallets_spec() && t.wallets_spec().last().name@ == name@
                            && t.wallets_spec().last().passphrase@ == passphrase@))
                            && (r matches Err(e) ==> e.kind == ErrorKind::InvalidInput),
                    }
                },
                WalletCommand::List => *final(wallet_client) == *old(wallet_client) && match old(
                    wallet_client,
                ).storage_spec() {
                    None => r matches Err(e) && e.kind == ErrorKind::PermissionDenied,
                    Some(s) => r matches Ok(names) && names@.len() == s.wallets_spec().len()
                        && forall|i: int|
                        0 <= i < names@.len() ==> names@[i]@ == s.wallets_spec()[i].name@,
                },
            },
    {
        match self {
            WalletCommand::New { name } => {
                if passphrase.to_owned() != confirmed_passphrase.to_owned() {
                    return Err(Error::new(ErrorKind::InvalidInput));
                }
                wallet_client.new_wallet(name.as_str(), passphrase)?;
                let mut v: Vec<String> = Vec::new();
                v.push(name.clone());
                Ok(v)
            },
            WalletCommand::List => wallet_client.wallets(),
        }
    }
}

} // verus!
