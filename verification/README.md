# wm_menus

Menus for the JWM and Openbox window managers, as a Verus-verified library
with a small command-line program around it.

- `src/menu.rs`: menus and items, and their JWM and Openbox XML.
- `src/apps.rs`: the application menu, one sub-menu per main desktop
  category, from desktop entries that the program has read.
- `src/places.rs`: the "places" menu of the home directory, its standard
  folders, the GTK bookmarks and the trash.
- `src/text.rs`: the character-level string work these share.
- `app/`: the program: argument handling, reading directories, desktop
  entries and bookmarks, icon lookup, and writing the cache files.

```
wm-menus [OPTIONS]
    -p || --places || places      Show a places menu for JWM
    -a || --apps || apps          Show an application menu for JWM
    -o || --openbox || openbox    Show an application menu for openbox
```
