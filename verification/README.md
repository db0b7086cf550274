# ontbible

La logique du site de la Bible ONT, vérifiée avec Verus : ce que le site
décide, avec ce qu'il promet dans les contrats de chaque fonction.

## Disposition

- `src/domaine/` — le texte et ses niveaux (`texte`, `lecture`), le corpus,
  la sélection de versets partagée par l'adresse, la recherche et son barème,
  les surlignages et leur fusion, la session, le profil, le verset du jour.
- `src/application/` — les ports (horloge, vivier, corpus, lexique) et le cas
  d'usage du verset du jour.
- `src/infrastructure/` — le lexique et le corpus embarqués, l'index de
  recherche, le PKCE et les adresses du backend, l'horloge de Paris.
- `src/interface/` — le parcours de connexion (cookies, redirections,
  encodage), les fichiers d'association d'app, le script de la peau, et les
  petites règles de la mise en page (renvois, images, navigation).
- `src/api.rs` — ce que les réponses du serveur transportent.
- `src/chaines.rs` — les outils de texte sur lesquels tout le reste s'appuie.
- `app/` — ce que Verus ne voit pas : les formes JSON, les appels HTTP au
  backend, la lecture des fichiers du pipeline, le calcul flottant du point de
  départ du pas.
- `tests/` — les épreuves, sur des valeurs concrètes.

Les lois — ce qui vaut pour toutes les entrées, ou d'un appel à l'autre —
sont des fonctions de preuve publiques dont le nom commence par `loi_`.
