//! Les fichiers d'association : ce que l'iPhone et Android vont chercher pour
//! savoir si l'app a le droit d'ouvrir les liens du site.

use vstd::prelude::*;

use crate::chaines::{caracteres, chaine, prolonger};

verus! {

/// L'identifiant de l'app iOS : l'équipe, puis le paquet.
pub const APP_ID: &'static str = "N49VNC2G57.com.labibleont.ONT";

/// Les chemins que l'app ouvre : la liseuse seule.
pub const CHEMINS: &'static str = "/fr/lire/*";

/// Le paquet Android.
pub const PAQUET_ANDROID: &'static str = "com.labibleont.ont";

/// Les empreintes des certificats qui signent l'app Android : la clé de
/// téléversement, puis celle de Play.
pub const EMPREINTES: [&'static str; 2] = [
    "AB:BB:7D:95:62:DD:68:09:6D:A3:AB:0A:18:D8:16:E1:17:04:4F:13:A9:C0:0C:03:06:62:5F:F7:54:EB:AF:EE",
    "8C:5C:AB:E4:6E:A5:E7:8E:A8:C1:76:DD:82:3E:00:83:5F:77:CA:93:1B:AC:A9:1B:2B:AB:9F:BE:91:34:6A:1D",
];

/// Le corps de `apple-app-site-association`.
pub open spec fn corps_spec() -> Seq<char> {
    "{\"applinks\":{\"details\":[{\"appIDs\":[\""@ + APP_ID@ + "\"],\"components\":[{\"/\":\""@
        + CHEMINS@ + "\"}]}]}}"@
}

/// Le corps de `apple-app-site-association`.
pub fn corps() -> (r: String)
    ensures
        r@ == corps_spec(),
{
    let mut v = caracteres("{\"applinks\":{\"details\":[{\"appIDs\":[\"");
    let a = caracteres(APP_ID);
    prolonger(&mut v, a.as_slice());
    let b = caracteres("\"],\"components\":[{\"/\":\"");
    prolonger(&mut v, b.as_slice());
    let c = caracteres(CHEMINS);
    prolonger(&mut v, c.as_slice());
    let d = caracteres("\"}]}]}}");
    prolonger(&mut v, d.as_slice());
    chaine(v.as_slice())
}

/// Une empreinte entre guillemets.
pub open spec fn citee(e: Seq<char>) -> Seq<char> {
    seq!['"'] + e + seq!['"']
}

/// Le corps de `assetlinks.json`.
pub open spec fn assetlinks_spec() -> Seq<char> {
    "[{\"relation\":[\"delegate_permission/common.handle_all_urls\"],\"target\":{\"namespace\":\"android_app\",\"package_name\":\""@
        + PAQUET_ANDROID@ + "\",\"sha256_cert_fingerprints\":["@ + citee(EMPREINTES[0]@)
        + ","@ + citee(EMPREINTES[1]@) + "]}}]"@
}

/// Le corps de `assetlinks.json` : la relation, le paquet, et les deux
/// empreintes.
pub fn assetlinks() -> (r: String)
    ensures
        r@ == assetlinks_spec(),
{
    let mut v = caracteres(
        "[{\"relation\":[\"delegate_permission/common.handle_all_urls\"],\"target\":{\"namespace\":\"android_app\",\"package_name\":\"",
    );
    let p = caracteres(PAQUET_ANDROID);
    prolonger(&mut v, p.as_slice());
    let q = caracteres("\",\"sha256_cert_fingerprints\":[");
    prolonger(&mut v, q.as_slice());
    let mut k: usize = 0;
    let empreintes = EMPREINTES;
    while k < 2
        invariant
            k <= 2,
            empreintes == EMPREINTES,
            v@ == "[{\"relation\":[\"delegate_permission/common.handle_all_urls\"],\"target\":{\"namespace\":\"android_app\",\"package_name\":\""@
                + PAQUET_ANDROID@ + "\",\"sha256_cert_fingerprints\":["@ + (if k == 0 {
                Seq::<char>::empty()
            } else if k == 1 {
                citee(EMPREINTES[0]@)
            } else {
                citee(EMPREINTES[0]@) + ","@ + citee(EMPREINTES[1]@)
            }),
        decreases 2 - k,
    {
        if k > 0 {
            let virgule = caracteres(",");
            prolonger(&mut v, virgule.as_slice());
        }
        v.push('"');
        let e = caracteres(empreintes[k]);
        prolonger(&mut v, e.as_slice());
        v.push('"');
        k = k + 1;
    }
    let f = caracteres("]}}]");
    prolonger(&mut v, f.as_slice());
    chaine(v.as_slice())
}

} // verus!
